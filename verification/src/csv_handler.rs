//! The file lister: building the match pattern for the configured directory,
//! sorting the scanned entries in descending lexical order, and collapsing
//! every failure of the ambient context into an empty listing.
//!
//! The ambient context — the configured directory (if any), whether that
//! directory exists, and the raw filesystem scan (if one could be made) — is
//! read at the embedding boundary and handed in here as plain values, so that
//! every decision taken on it is verified.
use vstd::prelude::*;
use vstd::multiset::Multiset;
use vstd::relations::sorted_by;
use vstd::seq_lib::lemma_sorted_unique;
use vstd::string::StringExecFns;

use crate::order::descending;
use crate::order::lemma_descending_total_ordering;
use crate::order::lemma_lex_le_refl;
use crate::order::lemma_lex_le_total;
use crate::order::lemma_lex_le_transitive;
use crate::order::lex_le;
use crate::order::str_lex_le;

verus! {

/// The views of a sequence of strings: each entry as its character sequence.
pub open spec fn view_seq(s: Seq<String>) -> Seq<Seq<char>> {
    s.map_values(|x: String| x@)
}

/// The fixed filename pattern appended to the configured directory.
pub open spec fn pattern_suffix() -> Seq<char> {
    "/sheepit_team_points_*.csv"@
}

/// Builds the match pattern for a directory: the directory path, a path
/// separator, and the fixed filename pattern.
pub fn csv_pattern(data_folder: &str) -> (r: String)
    ensures
        r@ == data_folder@ + pattern_suffix(),
{
    let mut r: String = data_folder.to_owned();
    r.append("/sheepit_team_points_*.csv");
    r
}

/// Decides whether the filesystem is to be scanned at all, and with which
/// pattern: a pattern is produced exactly when a directory is configured and
/// that directory exists; otherwise there is nothing to list.
pub fn prepare_scan(config: &Option<String>, dir_exists: bool) -> (r: Option<String>)
    ensures
        r is Some <==> (config is Some && dir_exists),
        r matches Some(p) ==> p@ == config->0@ + pattern_suffix(),
{
    match config {
        Option::None => Option::None,
        Option::Some(folder) => {
            if dir_exists {
                Option::Some(csv_pattern(folder.as_str()))
            } else {
                Option::None
            }
        },
    }
}

/// Index of a lexically greatest entry of a non-empty vector.
fn index_of_greatest(src: &Vec<String>) -> (m: usize)
    requires
        src@.len() > 0,
    ensures
        m < src@.len(),
        forall|j: int| 0 <= j < src@.len() ==> lex_le(src@[j]@, src@[m as int]@),
{
    let mut m: usize = 0;
    let mut k: usize = 1;
    proof {
        lemma_lex_le_refl(src@[0]@);
    }
    while k < src.len()
        invariant
            m < k,
            1 <= k <= src@.len(),
            forall|j: int| 0 <= j < k ==> lex_le(src@[j]@, src@[m as int]@),
        decreases src@.len() - k,
    {
        if str_lex_le(src[m].as_str(), src[k].as_str()) {
            proof {
                assert forall|j: int| 0 <= j < k + 1 implies lex_le(
                    src@[j]@,
                    src@[k as int]@,
                ) by {
                    if j < k {
                        lemma_lex_le_transitive(src@[j]@, src@[m as int]@, src@[k as int]@);
                    } else {
                        lemma_lex_le_refl(src@[k as int]@);
                    }
                }
            }
            m = k;
        } else {
            proof {
                lemma_lex_le_total(src@[m as int]@, src@[k as int]@);
            }
        }
        k = k + 1;
    }
    m
}

/// Sorts the entries in descending lexical order: the result holds exactly
/// the given entries, rearranged so that the lexically greatest comes first.
pub fn sort_descending(files: Vec<String>) -> (r: Vec<String>)
    ensures
        view_seq(r@).to_multiset() == view_seq(files@).to_multiset(),
        sorted_by(view_seq(r@), descending()),
        r@.len() == files@.len(),
{
    broadcast use vstd::seq_lib::group_to_multiset_ensures;
    broadcast use vstd::multiset::group_multiset_axioms;

    let mut src = files;
    let mut out: Vec<String> = Vec::new();
    proof {
        assert(view_seq(out@) =~= Seq::<Seq<char>>::empty());
        assert(view_seq(out@).to_multiset() =~= Multiset::<Seq<char>>::empty());
        assert(view_seq(out@).to_multiset().add(view_seq(src@).to_multiset()) =~= view_seq(
            files@,
        ).to_multiset());
    }
    while src.len() != 0
        invariant
            view_seq(out@).to_multiset().add(view_seq(src@).to_multiset()) == view_seq(
                files@,
            ).to_multiset(),
            out@.len() + src@.len() == files@.len(),
            sorted_by(view_seq(out@), descending()),
            forall|i: int, j: int|
                0 <= i < out@.len() && 0 <= j < src@.len() ==> #[trigger] lex_le(
                    src@[j]@,
                    out@[i]@,
                ),
        decreases src@.len(),
    {
        let ghost old_src = src@;
        let ghost old_out = out@;
        let m = index_of_greatest(&src);
        let e = src.remove(m);
        out.push(e);
        proof {
            assert(view_seq(src@) =~= view_seq(old_src).remove(m as int));
            assert(view_seq(out@) =~= view_seq(old_out).push(e@));
            assert(view_seq(old_src)[m as int] == e@);
            assert(view_seq(old_src).contains(e@));
            vstd::seq_lib::to_multiset_remove(view_seq(old_src), m as int);
            vstd::seq_lib::to_multiset_build(view_seq(old_out), e@);
            view_seq(old_src).to_multiset_ensures();
            assert(view_seq(src@).to_multiset() =~= view_seq(old_src).to_multiset().remove(e@));
            assert(view_seq(out@).to_multiset() =~= view_seq(old_out).to_multiset().insert(e@));
            assert(view_seq(out@).to_multiset().add(view_seq(src@).to_multiset()) =~= view_seq(
                old_out,
            ).to_multiset().add(view_seq(old_src).to_multiset()));
            assert forall|i: int, j: int|
                0 <= i < j < view_seq(out@).len() implies #[trigger] (descending())(
                view_seq(out@)[i],
                view_seq(out@)[j],
            ) by {
                if j < old_out.len() {
                    assert((descending())(view_seq(old_out)[i], view_seq(old_out)[j]));
                } else {
                    assert(lex_le(old_src[m as int]@, old_out[i]@));
                }
            }
            assert forall|i: int, j: int|
                0 <= i < out@.len() && 0 <= j < src@.len() implies #[trigger] lex_le(
                src@[j]@,
                out@[i]@,
            ) by {
                let jj: int = if j < m { j } else { j + 1 };
                assert(src@[j] == old_src[jj]);
                if i < old_out.len() {
                    assert(lex_le(old_src[jj]@, old_out[i]@));
                } else {
                    assert(lex_le(old_src[jj]@, old_src[m as int]@));
                }
            }
        }
    }
    proof {
        assert(view_seq(src@) =~= Seq::<Seq<char>>::empty());
        assert(view_seq(src@).to_multiset() =~= Multiset::<Seq<char>>::empty());
        assert(view_seq(out@).to_multiset() =~= view_seq(files@).to_multiset());
        view_seq(files@).to_multiset_ensures();
        view_seq(out@).to_multiset_ensures();
        assert(view_seq(files@).len() == view_seq(files@).to_multiset().len());
        assert(view_seq(out@).len() == view_seq(out@).to_multiset().len());
    }
    out
}

/// The whole listing decision, over the ambient context it depends on:
///
/// * no directory configured — empty listing;
/// * configured directory does not exist — empty listing;
/// * the scan itself could not be made (the pattern did not compile) — empty
///   listing;
/// * otherwise the listing holds exactly the scanned entries, sorted in
///   descending lexical order, the lexically greatest name first.
pub fn get_csv_files_from_folder(
    config: Option<String>,
    dir_exists: bool,
    scan: Option<Vec<String>>,
) -> (r: Vec<String>)
    ensures
        config is None ==> r@.len() == 0,
        !dir_exists ==> r@.len() == 0,
        scan is None ==> r@.len() == 0,
        (config is Some && dir_exists) ==> (scan matches Some(entries) ==> {
            &&& view_seq(r@).to_multiset() == view_seq(entries@).to_multiset()
            &&& sorted_by(view_seq(r@), descending())
            &&& r@.len() == entries@.len()
        }),
{
    match config {
        Option::None => Vec::new(),
        Option::Some(_) => {
            if !dir_exists {
                Vec::new()
            } else {
                match scan {
                    Option::None => Vec::new(),
                    Option::Some(entries) => sort_descending(entries),
                }
            }
        },
    }
}

/// Re-scanning an unchanged directory gives the identical listing: a
/// descending-sorted rearrangement of a given multiset of entries is unique,
/// so two listings made from the same scanned entries are equal.
pub proof fn lemma_rescan_stable(scan: Seq<Seq<char>>, r1: Seq<Seq<char>>, r2: Seq<Seq<char>>)
    requires
        r1.to_multiset() == scan.to_multiset(),
        r2.to_multiset() == scan.to_multiset(),
        sorted_by(r1, descending()),
        sorted_by(r2, descending()),
    ensures
        r1 == r2,
{
    lemma_descending_total_ordering();
    lemma_sorted_unique(r1, r2, descending());
    assert(r1 =~= r2);
}

} // verus!
