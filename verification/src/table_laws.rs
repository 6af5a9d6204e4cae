//! Where the rows of the table of keys stand.

use crate::counting;
use crate::help;
use crate::keymap;
use vstd::prelude::*;

verus! {

/// Every row of the table stands in its section, behind those of the section
/// that stand before it, with its labels, its description and its actions.
pub proof fn where_a_row_of_the_table_stands(section: int, r: int)
    requires
        0 <= r < help::ROW_COUNT,
        0 <= section < help::SECTION_COUNT,
    ensures
        ({
            let rows = help::table()[section].bindings;
            let at = rows_before(section, r);
            &&& help::table().len() == help::SECTION_COUNT
            &&& help::table()[section].title == help::TITLES[section]@
            &&& rows.len() == rows_before(section, help::ROW_COUNT as int)
            &&& help::ROWS[r].0 == section ==> {
                &&& 0 <= at < rows.len()
                &&& rows[at].keys == keymap::filled(help::ROWS[r].1@)
                &&& rows[at].action == help::ROWS[r].2@
                &&& rows[at].names == keymap::filled(help::ROWS[r].3@)
            }
        }),
{
    rows_of_a_section(section, help::ROW_COUNT as int, r);
}

/// How many of the table's first `n` rows stand in a section.
pub open spec fn rows_before(section: int, n: int) -> int {
    counting::how_many(|i: int| help::ROWS[i].0 == section, n)
}

proof fn rows_of_a_section(section: int, n: int, r: int)
    requires
        0 <= n <= help::ROW_COUNT,
    ensures
        help::section_rows(section, n).len() == rows_before(section, n),
        0 <= r < n && help::ROWS[r].0 == section ==> {
            &&& 0 <= rows_before(section, r) < help::section_rows(section, n).len()
            &&& help::section_rows(section, n)[rows_before(section, r)] == help::table_row(r)
        },
    decreases n,
{
    if n > 0 {
        rows_of_a_section(section, n - 1, r);
        counting::at_most_all(|i: int| help::ROWS[i].0 == section, n - 1);
    }
}

} // verus!
