//! Crosswalk support: selecting centerline entities by layer.

use vstd::prelude::*;

use crate::dxf::{DxfLine, LineView};
use crate::dxf_index::lines_matching;
use crate::text::contains_ignore_case_exec;

verus! {

pub open spec fn line_views(v: Seq<DxfLine>) -> Seq<LineView> {
    v.map_values(|l: DxfLine| l@)
}

/// Copies of the lines whose layer contains `pattern`, ignoring case, in
/// order.
pub fn filter_by_layer(lines: &[DxfLine], pattern: &str) -> (r: Vec<DxfLine>)
    ensures
        line_views(r@) == lines_matching(line_views(lines@), pattern@),
{
    let ghost all = line_views(lines@);
    let mut r: Vec<DxfLine> = Vec::new();
    let mut i: usize = 0;
    while i < lines.len()
        invariant
            i <= lines@.len(),
            all == line_views(lines@),
            line_views(r@) == lines_matching(all.take(i as int), pattern@),
        decreases lines@.len() - i,
    {
        let l = &lines[i];
        let ghost before = r@;
        proof {
            reveal_with_fuel(Seq::<_>::filter, 1);
            assert(all.take(i + 1).drop_last() =~= all.take(i as int));
        }
        if contains_ignore_case_exec(l.layer.as_str(), pattern) {
            r.push(l.copy());
            assert(line_views(r@) =~= line_views(before).push(l@));
        }
        i += 1;
    }
    assert(all.take(i as int) =~= all);
    r
}

} // verus!
