//! The order in which releases are listed: newest version first, and what
//! that order guarantees about the active and previous release.

use vstd::prelude::*;

use crate::discover::{insert_position, release_before, sort_releases, text_less};
use crate::model::{first_index_with, lemma_first_index, ReleaseInfo};

verus! {

/// No release is listed after one it should come before.
pub open spec fn newest_first(s: Seq<ReleaseInfo>) -> bool {
    forall|i: int, j: int| 0 <= i < j < s.len() ==> !release_before(#[trigger] s[j], #[trigger] s[i])
}

proof fn lemma_text_less_asymmetric(a: Seq<char>, b: Seq<char>)
    requires
        text_less(a, b),
    ensures
        !text_less(b, a),
    decreases a.len(),
{
    if a.len() > 0 && b.len() > 0 && a[0] == b[0] {
        lemma_text_less_asymmetric(a.drop_first(), b.drop_first());
    }
}

proof fn lemma_text_less_transitive(a: Seq<char>, b: Seq<char>, c: Seq<char>)
    requires
        text_less(a, b),
        text_less(b, c),
    ensures
        text_less(a, c),
    decreases a.len(),
{
    if a.len() > 0 && b.len() > 0 && c.len() > 0 && a[0] == b[0] && b[0] == c[0] {
        lemma_text_less_transitive(a.drop_first(), b.drop_first(), c.drop_first());
    }
}

proof fn lemma_before_asymmetric(a: ReleaseInfo, b: ReleaseInfo)
    requires
        release_before(a, b),
    ensures
        !release_before(b, a),
{
    if a.version_key == b.version_key {
        lemma_text_less_asymmetric(b.directory_name@, a.directory_name@);
    }
}

proof fn lemma_before_transitive(a: ReleaseInfo, b: ReleaseInfo, c: ReleaseInfo)
    requires
        release_before(a, b),
        release_before(b, c),
    ensures
        release_before(a, c),
{
    if a.version_key == b.version_key && b.version_key == c.version_key {
        lemma_text_less_transitive(c.directory_name@, b.directory_name@, a.directory_name@);
    }
}

proof fn lemma_insert_position(sorted: Seq<ReleaseInfo>, r: ReleaseInfo, from: int)
    requires
        0 <= from <= sorted.len(),
    ensures
        from <= insert_position(sorted, r, from) <= sorted.len(),
        forall|i: int|
            from <= i < insert_position(sorted, r, from) ==> !release_before(r, #[trigger] sorted[i]),
        insert_position(sorted, r, from) < sorted.len() ==> release_before(
            r,
            sorted[insert_position(sorted, r, from)],
        ),
    decreases sorted.len() - from,
{
    if from < sorted.len() && !release_before(r, sorted[from]) {
        lemma_insert_position(sorted, r, from + 1);
    }
}

proof fn lemma_insert_keeps_order(sorted: Seq<ReleaseInfo>, r: ReleaseInfo)
    requires
        newest_first(sorted),
    ensures
        newest_first(sorted.insert(insert_position(sorted, r, 0), r)),
{
    lemma_insert_position(sorted, r, 0);
    let p = insert_position(sorted, r, 0);
    let out = sorted.insert(p, r);
    assert forall|i: int, j: int| 0 <= i < j < out.len() implies !release_before(
        #[trigger] out[j],
        #[trigger] out[i],
    ) by {
        if j < p {
            assert(out[i] == sorted[i] && out[j] == sorted[j]);
        } else if j == p {
            assert(out[i] == sorted[i]);
        } else if i < p {
            assert(out[i] == sorted[i] && out[j] == sorted[j - 1]);
        } else if i == p {
            assert(out[j] == sorted[j - 1]);
            if release_before(sorted[j - 1], r) {
                lemma_before_transitive(sorted[j - 1], r, sorted[p]);
                if j - 1 == p {
                    lemma_before_asymmetric(sorted[p], sorted[p]);
                }
            }
        } else {
            assert(out[i] == sorted[i - 1] && out[j] == sorted[j - 1]);
        }
    }
}

/// Discovered releases are listed newest first, and none is lost or added:
/// the listing is a reordering of the releases found.
pub proof fn law_discovery_lists_newest_first(found: Seq<ReleaseInfo>)
    ensures
        newest_first(sort_releases(found)),
        sort_releases(found).to_multiset() == found.to_multiset(),
    decreases found.len(),
{
    broadcast use vstd::seq_lib::to_multiset_insert, vstd::seq_lib::group_to_multiset_ensures;

    if found.len() > 0 {
        law_discovery_lists_newest_first(found.drop_last());
        let sorted = sort_releases(found.drop_last());
        lemma_insert_keeps_order(sorted, found.last());
        lemma_insert_position(sorted, found.last(), 0);
        assert(found =~= found.drop_last().push(found.last()));
    } else {
        assert(sort_releases(found) =~= found);
    }
}

/// In a newest-first listing, the first inactive release is the newest
/// inactive one: no other inactive release should be listed before it.
pub proof fn law_previous_release_is_newest_inactive(s: Seq<ReleaseInfo>, j: int)
    requires
        newest_first(s),
        first_index_with(s, false, 0) is Some,
        0 <= j < s.len(),
        !s[j].active,
    ensures
        !release_before(s[j], s[first_index_with(s, false, 0)->0]),
{
    lemma_first_index(s, false, 0);
    let k = first_index_with(s, false, 0)->0;
    if j == k {
        if release_before(s[j], s[k]) {
            lemma_before_asymmetric(s[j], s[k]);
        }
    } else {
        assert(j > k);
    }
}

} // verus!
