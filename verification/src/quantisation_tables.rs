//! The quantisation table for luma at quality 50, and the test that a
//! table can be divided by.
use vstd::prelude::*;
use crate::error::EncodeError;
use crate::grid::Grid;
use crate::plane::Plane;

verus! {

/// The divisors of the luma table at quality 50, row by row.
pub open spec fn luma_divisors_50() -> Seq<u8> {
    seq![
        16u8, 11, 10, 16, 24, 40, 51, 61,
        12, 12, 14, 19, 26, 58, 60, 55,
        14, 13, 16, 24, 40, 57, 69, 56,
        14, 17, 22, 29, 51, 87, 80, 62,
        18, 22, 37, 56, 68, 109, 103, 77,
        24, 35, 55, 64, 81, 104, 113, 92,
        49, 64, 78, 87, 103, 121, 120, 101,
        72, 92, 95, 98, 112, 100, 103, 99,
    ]
}

/// Whether a table is eight by eight.
pub open spec fn block_sized(table: Grid<u8>) -> bool {
    table.height() == 8 && table.width == 8
}

/// Whether every divisor of a table is positive.
pub open spec fn all_positive(table: Grid<u8>) -> bool {
    forall|i: int, j: int| table.has(i, j) ==> #[trigger] table.at(i, j) > 0
}

/// The luma quantisation table at quality 50.
pub fn y_table_50() -> (table: Plane)
    ensures
        table@ == Grid::from_flat(8, 8, luma_divisors_50()),
{
    let divisors: Vec<u8> = vec![
        16, 11, 10, 16, 24, 40, 51, 61,
        12, 12, 14, 19, 26, 58, 60, 55,
        14, 13, 16, 24, 40, 57, 69, 56,
        14, 17, 22, 29, 51, 87, 80, 62,
        18, 22, 37, 56, 68, 109, 103, 77,
        24, 35, 55, 64, 81, 104, 113, 92,
        49, 64, 78, 87, 103, 121, 120, 101,
        72, 92, 95, 98, 112, 100, 103, 99,
    ];
    proof {
        assert(divisors@ =~= luma_divisors_50());
    }
    Plane::from_vec(8, 8, divisors).unwrap()
}

/// The luma table at quality 50 can be divided by.
pub proof fn lemma_luma_table_usable()
    ensures
        block_sized(Grid::from_flat(8, 8, luma_divisors_50())),
        all_positive(Grid::from_flat(8, 8, luma_divisors_50())),
{
    let table = Grid::from_flat(8, 8, luma_divisors_50());
    assert forall|i: int, j: int| table.has(i, j) implies #[trigger] table.at(i, j) > 0 by {
        let k = i * 8 + j;
    }
}

/// Accepts a table that is eight by eight with every divisor positive.
///
/// Fails with `InvalidShape` where the table is not eight by eight, and
/// else with `InvalidQuantizationTable` where a divisor is zero.
pub fn validate_table(table: &Plane) -> (checked: Result<(), EncodeError>)
    ensures
        checked is Ok <==> block_sized(table@) && all_positive(table@),
        checked == Err::<(), EncodeError>(EncodeError::InvalidShape) <==> !block_sized(table@),
        checked == Err::<(), EncodeError>(EncodeError::InvalidQuantizationTable) <==> block_sized(
            table@,
        ) && !all_positive(table@),
{
    let (rows, cols) = table.extent();
    if rows != 8 || cols != 8 {
        return Err(EncodeError::InvalidShape);
    }
    let mut i: usize = 0;
    while i < 8
        invariant
            i <= 8,
            table@.height() == 8,
            table@.width == 8,
            forall|a: int, b: int| 0 <= a < i && 0 <= b < 8 ==> #[trigger] table@.at(a, b) > 0,
        decreases 8 - i,
    {
        let mut j: usize = 0;
        while j < 8
            invariant
                i < 8,
                j <= 8,
                table@.height() == 8,
                table@.width == 8,
                forall|a: int, b: int| 0 <= a < i && 0 <= b < 8 ==> #[trigger] table@.at(a, b) > 0,
                forall|b: int| 0 <= b < j ==> #[trigger] table@.at(i as int, b) > 0,
            decreases 8 - j,
        {
            if table.get(i, j) == 0 {
                return Err(EncodeError::InvalidQuantizationTable);
            }
            j += 1;
        }
        i += 1;
    }
    Ok(())
}

} // verus!
