//! Assembling one invocation's raw entries: the single-directory mode that
//! marks the listed directory itself, and the multi-path mode that never
//! does.
use vstd::prelude::*;

use crate::entry::RawEntry;
use crate::entry::Tier;
use crate::entry::tier_rep;

verus! {

/// What one invocation asks to list: a single named directory expanded to
/// its children, or the named items themselves (never expanded).
pub enum ListingRequest {
    /// The one named path is a directory: its own record (where its
    /// metadata could be read) followed by its children's records.
    SingleDirectory(Option<RawEntry>, Vec<RawEntry>),
    /// Each named path stands for itself.
    Standalone(Vec<RawEntry>),
}

/// The collector hands over well-formed records, none of them marked as
/// the main directory: the mark is applied here.
pub open spec fn request_wf(req: ListingRequest) -> bool {
    match req {
        ListingRequest::SingleDirectory(d, kids) => (match d {
            Option::Some(e) => e.wf() && !e.is_main_dir,
            Option::None => true,
        }) && (forall|k: int| 0 <= k < kids@.len() ==> kids@[k].wf() && !kids@[k].is_main_dir),
        ListingRequest::Standalone(v) => forall|k: int|
            0 <= k < v@.len() ==> v@[k].wf() && !v@[k].is_main_dir,
    }
}

/// The listed directory's own record, carrying the main-directory mark.
pub open spec fn mark_main(e: RawEntry) -> RawEntry {
    RawEntry { is_main_dir: true, ..e }
}

/// The raw entry list a request flattens to: in single-directory mode the
/// marked directory itself (where its metadata could be read) followed by
/// its children in order; otherwise the named items themselves, untouched.
pub open spec fn gathered_rep(req: ListingRequest) -> Seq<RawEntry> {
    match req {
        ListingRequest::SingleDirectory(dopt, kids) => match dopt {
            Option::Some(d) => seq![mark_main(d)] + kids@,
            Option::None => kids@,
        },
        ListingRequest::Standalone(v) => v@,
    }
}

/// Flatten a request into the raw entry list, marking the listed directory
/// itself — and nothing else — as the main directory.
pub fn gather_entries(req: ListingRequest) -> (r: Vec<RawEntry>)
    requires
        request_wf(req),
    ensures
        r@ == gathered_rep(req),
        forall|k: int| 0 <= k < r@.len() ==> r@[k].wf(),
        forall|i: int, j: int|
            0 <= i < r@.len() && 0 <= j < r@.len() && i != j ==> !(r@[i].is_main_dir
                && r@[j].is_main_dir),
        req is Standalone ==> forall|k: int| 0 <= k < r@.len() ==> !r@[k].is_main_dir,
{
    match req {
        ListingRequest::SingleDirectory(dopt, kids) => {
            let mut out: Vec<RawEntry> = Vec::new();
            let ghost head: Seq<RawEntry> = if dopt is Some {
                seq![mark_main(dopt->0)]
            } else {
                Seq::empty()
            };
            match dopt {
                Option::Some(d) => {
                    let main = RawEntry { is_main_dir: true, ..d };
                    out.push(main);
                },
                Option::None => {},
            }
            proof {
                assert(out@ =~= head);
            }
            let ghost orig = kids@;
            let ghost mut done: int = 0;
            let mut kids = kids;
            proof {
                assert(kids@ =~= orig.skip(0));
                assert(out@ =~= head + orig.take(0));
            }
            while kids.len() > 0
                invariant
                    0 <= done <= orig.len(),
                    kids@ == orig.skip(done),
                    out@ == head + orig.take(done),
                    head.len() <= 1,
                    forall|k: int| 0 <= k < head.len() ==> head[k].wf(),
                    forall|k: int| 0 <= k < orig.len() ==> orig[k].wf()
                        && !orig[k].is_main_dir,
                decreases kids@.len(),
            {
                let ghost rest = kids@;
                let c = kids.remove(0);
                proof {
                    assert(rest[0] == orig.skip(done)[0]);
                    assert(c == orig[done]);
                    assert(forall|k: int| 0 <= k < kids@.len() ==> kids@[k] == rest[k + 1]);
                }
                out.push(c);
                proof {
                    done = done + 1;
                    assert(kids@ =~= orig.skip(done));
                    assert(out@ =~= head + orig.take(done));
                }
            }
            proof {
                assert(orig.take(orig.len() as int) =~= orig);
                assert(out@ =~= gathered_rep(req));
                assert forall|k: int| 0 <= k < out@.len() implies out@[k].wf() by {
                    if k >= head.len() {
                        assert(out@[k] == orig[k - head.len()]);
                    }
                }
                assert forall|k: int|
                    head.len() <= k < out@.len() implies !out@[k].is_main_dir by {
                    assert(out@[k] == orig[k - head.len()]);
                }
            }
            out
        },
        ListingRequest::Standalone(v) => v,
    }
}

/// Whether a child name is hidden: it begins with the hidden-file marker,
/// and so is left out of a directory listing unless hidden entries were
/// asked for.
pub open spec fn hidden_name_rep(name: Seq<char>) -> bool {
    name.len() > 0 && name[0] == '.'
}

pub fn is_hidden_name(name: &str) -> (r: bool)
    ensures
        r == hidden_name_rep(name@),
{
    if name.unicode_len() == 0 {
        false
    } else {
        name.get_char(0) == '.'
    }
}

/// The diagnostic line for a named path that does not exist; printing it
/// and stopping before any listing is the one fatal, top-level error.
pub fn missing_path_message(path_text: &str) -> (r: String)
    ensures
        r@ == "Error: "@ + path_text@ + " does not exist"@,
{
    "Error: ".to_owned().concat(path_text).concat(" does not exist")
}

/// The primary tier mirrors the main-directory mark one-to-one, so it
/// appears at most once per invocation.
pub proof fn lemma_primary_tier_at_most_once(raws: Seq<RawEntry>)
    requires
        forall|i: int, j: int|
            0 <= i < raws.len() && 0 <= j < raws.len() && i != j ==> !(raws[i].is_main_dir
                && raws[j].is_main_dir),
    ensures
        forall|i: int, j: int|
            0 <= i < raws.len() && 0 <= j < raws.len() && i != j ==> !(tier_rep(raws[i])
                == Tier::Primary && tier_rep(raws[j]) == Tier::Primary),
{
}

/// Outside single-directory mode no record carries the main-directory
/// mark, so the primary tier never appears there.
pub proof fn lemma_no_primary_without_main(raws: Seq<RawEntry>)
    requires
        forall|k: int| 0 <= k < raws.len() ==> !raws[k].is_main_dir,
    ensures
        forall|k: int| 0 <= k < raws.len() ==> tier_rep(raws[k]) != Tier::Primary,
{
}

} // verus!
