//! The search path: a list of directories written as one string, with a
//! colon between each two.

use crate::text::{
    all_free_of, free_of, holds_char, join_text, join_with, split_on, split_text, str_eq, views,
};
use vstd::prelude::*;

verus! {

/// The entries of a search path.  Read from the left, every colon ends an
/// entry and begins the next, so a path always has at least one entry.
pub open spec fn split(s: Seq<char>) -> Seq<Seq<char>> {
    split_on(s, ':')
}

/// The search path made of the given entries, with a colon between each two.
pub open spec fn join(entries: Seq<Seq<char>>) -> Seq<char> {
    join_with(entries, ':')
}

/// An entry without a colon, which a search path can therefore hold.
pub open spec fn colon_free(entry: Seq<char>) -> bool {
    free_of(entry, ':')
}

/// All entries are free of colons.
pub open spec fn all_colon_free(entries: Seq<Seq<char>>) -> bool {
    all_free_of(entries, ':')
}

/// `segment` stands in `list` from position `at` on.
pub open spec fn occurs_at<T>(list: Seq<T>, segment: Seq<T>, at: int) -> bool {
    &&& 0 <= at
    &&& at + segment.len() <= list.len()
    &&& list.subrange(at, at + segment.len()) == segment
}

/// The first position from `from` on at which `segment`, which is not empty,
/// stands in `list`.
pub open spec fn find_from<T>(list: Seq<T>, segment: Seq<T>, from: nat) -> Option<int>
    decreases list.len() - from,
{
    if segment.len() == 0 || from + segment.len() > list.len() {
        None
    } else if occurs_at(list, segment, from as int) {
        Some(from as int)
    } else {
        find_from(list, segment, from + 1)
    }
}

/// `list` without the first stretch that equals `segment`; `list` itself
/// where there is none, or where `segment` is empty.
pub open spec fn without_segment<T>(list: Seq<T>, segment: Seq<T>) -> Seq<T> {
    match find_from(list, segment, 0) {
        Some(at) => list.subrange(0, at) + list.subrange(at + segment.len(), list.len() as int),
        None => list,
    }
}

/// A segment that is not empty is first found where a list begins with it.
pub proof fn lemma_without_leading_segment<T>(segment: Seq<T>, rest: Seq<T>)
    ensures
        without_segment(segment + rest, segment) == rest,
{
    let list = segment + rest;
    if segment.len() > 0 {
        assert(list.subrange(0, segment.len() as int) == segment);
        assert(occurs_at(list, segment, 0));
        assert(list.subrange(0, 0) + list.subrange(segment.len() as int, list.len() as int)
            == rest);
    } else {
        assert(list == rest);
    }
}

/// Taking a stretch out of a list of entries leaves entries of the list.
pub proof fn lemma_without_segment_colon_free(list: Seq<Seq<char>>, segment: Seq<Seq<char>>)
    requires
        all_colon_free(list),
    ensures
        all_colon_free(without_segment(list, segment)),
{
    let rest = without_segment(list, segment);
    match find_from(list, segment, 0) {
        Some(at) => {
            lemma_find_from_bounds(list, segment, 0);
            assert forall|i: int| 0 <= i < rest.len() implies colon_free(#[trigger] rest[i]) by {
                if i < at {
                    assert(rest[i] == list[i]);
                } else {
                    assert(rest[i] == list[i + segment.len()]);
                }
            }
        },
        None => {},
    }
}

/// A stretch that is found lies within the list.
pub proof fn lemma_find_from_bounds<T>(list: Seq<T>, segment: Seq<T>, from: nat)
    ensures
        match find_from(list, segment, from) {
            Some(at) => from <= at && at + segment.len() <= list.len(),
            None => true,
        },
    decreases list.len() - from,
{
    if segment.len() == 0 || from + segment.len() > list.len() {
    } else if occurs_at(list, segment, from as int) {
    } else {
        lemma_find_from_bounds(list, segment, from + 1);
    }
}

/// Tells whether `segment` stands in `list` from position `at` on.
fn stands_at(list: &Vec<String>, segment: &Vec<String>, at: usize) -> (yes: bool)
    requires
        at + segment.len() <= list.len(),
    ensures
        yes == occurs_at(views(list@), views(segment@), at as int),
{
    let ghost whole = views(list@);
    let ghost part = views(segment@);
    let mut j: usize = 0;
    while j < segment.len()
        invariant
            j <= segment.len(),
            at + segment.len() <= list.len(),
            whole == views(list@),
            part == views(segment@),
            forall|k: int| 0 <= k < j ==> whole[at + k] == part[k],
        decreases segment.len() - j,
    {
        if !str_eq(list[at + j].as_str(), segment[j].as_str()) {
            assert(whole.subrange(at as int, at + part.len())[j as int] != part[j as int]);
            return false;
        }
        j += 1;
    }
    assert(whole.subrange(at as int, at + part.len()) =~= part);
    true
}

/// Finds the first stretch of `list` that equals `segment`.
pub fn find_segment(list: &Vec<String>, segment: &Vec<String>) -> (found: Option<usize>)
    ensures
        match found {
            Some(at) => find_from(views(list@), views(segment@), 0) == Some(at as int) && at
                + segment.len() <= list.len(),
            None => find_from(views(list@), views(segment@), 0) is None,
        },
{
    let ghost whole = views(list@);
    let ghost part = views(segment@);
    if segment.len() == 0 || segment.len() > list.len() {
        return None;
    }
    let last: usize = list.len() - segment.len();
    let mut from: usize = 0;
    while from <= last
        invariant
            from <= last + 1,
            last + segment.len() == list.len(),
            segment.len() > 0,
            whole == views(list@),
            part == views(segment@),
            find_from(whole, part, 0) == find_from(whole, part, from as nat),
        decreases last + 1 - from,
    {
        if stands_at(list, segment, from) {
            return Some(from);
        }
        from += 1;
    }
    None
}

/// Removes from `list` the first stretch that equals `segment`.
pub fn remove_segment(list: &Vec<String>, segment: &Vec<String>) -> (out: Vec<String>)
    ensures
        views(out@) == without_segment(views(list@), views(segment@)),
{
    let ghost whole = views(list@);
    let ghost part = views(segment@);
    let found = find_segment(list, segment);
    let mut out: Vec<String> = Vec::new();
    let mut i: usize = 0;
    match found {
        Some(at) => {
            while i < list.len()
                invariant
                    i <= list.len(),
                    at + segment.len() <= list.len(),
                    whole == views(list@),
                    views(out@) == if i <= at {
                        whole.subrange(0, i as int)
                    } else {
                        whole.subrange(0, at as int) + whole.subrange(
                            at + segment.len(),
                            if i < at + segment.len() {
                                at + segment.len()
                            } else {
                                i as int
                            },
                        )
                    },
                decreases list.len() - i,
            {
                let ghost before = views(out@);
                if i < at || i >= at + segment.len() {
                    out.push(list[i].clone());
                    assert(views(out@) =~= before.push(whole[i as int]));
                }
                i += 1;
                assert(views(out@) =~= if i <= at {
                    whole.subrange(0, i as int)
                } else {
                    whole.subrange(0, at as int) + whole.subrange(
                        at + segment.len(),
                        if i < at + segment.len() {
                            at + segment.len()
                        } else {
                            i as int
                        },
                    )
                });
            }
        },
        None => {
            while i < list.len()
                invariant
                    i <= list.len(),
                    whole == views(list@),
                    views(out@) == whole.subrange(0, i as int),
                decreases list.len() - i,
            {
                let ghost before = views(out@);
                out.push(list[i].clone());
                assert(views(out@) =~= before.push(whole[i as int]));
                i += 1;
            }
            assert(whole.subrange(0, whole.len() as int) == whole);
        },
    }
    out
}

/// Tells whether a text holds a colon.
pub fn holds_colon(s: &str) -> (yes: bool)
    ensures
        yes == !colon_free(s@),
{
    holds_char(s, ':')
}

/// Splits a search path into its entries.
pub fn split_path(path: &str) -> (out: Vec<String>)
    ensures
        views(out@) == split(path@),
{
    split_text(path, ':')
}

/// Writes entries as one search path.
pub fn join_path(entries: &Vec<String>) -> (out: String)
    ensures
        out@ == join(views(entries@)),
{
    join_text(entries, ':')
}

} // verus!
