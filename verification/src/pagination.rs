//! Cursor pagination shared by the feature registries: fixed page size,
//! cursors that are decimal start indexes, and the guarantee that walking
//! the pages yields the whole list exactly once.

use vstd::prelude::*;
use crate::types::{PaginationParams, PaginationResult};
use crate::strings::{dec_of, dec_val, all_digits, is_digit, str_to_chars, parse_u64_range,
    u64_to_string, lemma_dec_of_digits, lemma_dec_val_of_dec_of};

verus! {

/// Number of items per page.
pub open spec fn spec_page_size() -> nat {
    50
}

/// The start index encoded by a cursor: its decimal value when the cursor is
/// all digits and fits the machine, zero otherwise.
pub open spec fn spec_cursor_start(c: Option<Seq<char>>) -> nat {
    match c {
        None => 0,
        Some(s) => if s.len() > 0 && all_digits(s) && dec_val(s) <= usize::MAX {
            dec_val(s)
        } else {
            0
        },
    }
}

/// The page beginning at `start`: up to one page size of items.
pub open spec fn spec_page<T>(items: Seq<T>, start: nat) -> Seq<T> {
    let lo = if start <= items.len() {
        start as int
    } else {
        items.len() as int
    };
    let hi = if start + spec_page_size() <= items.len() {
        (start + spec_page_size()) as int
    } else {
        items.len() as int
    };
    items.subrange(lo, hi)
}

/// The cursor of the page after the one beginning at `start`, when more
/// items follow it.
pub open spec fn spec_next_cursor<T>(items: Seq<T>, start: nat) -> Option<Seq<char>> {
    if start + spec_page_size() < items.len() {
        Some(dec_of(start + spec_page_size()))
    } else {
        None
    }
}

/// Decode a cursor into a start index.
#[verifier::loop_isolation(false)]
fn cursor_start(cursor: &String) -> (r: usize)
    ensures
        r == spec_cursor_start(Some(cursor@)),
{
    let v = str_to_chars(cursor.as_str());
    if v.len() == 0 {
        return 0;
    }
    let mut i: usize = 0;
    while i < v.len()
        invariant
            i <= v@.len(),
            forall|j: int| 0 <= j < i ==> is_digit(#[trigger] v@[j]),
        decreases v@.len() - i,
    {
        let c = v[i];
        if !('0' <= c && c <= '9') {
            return 0;
        }
        i = i + 1;
    }
    proof {
        assert(v@.subrange(0, v@.len() as int) =~= cursor@);
    }
    match parse_u64_range(&v, 0, v.len()) {
        Some(n) => {
            if n <= usize::MAX as u64 {
                n as usize
            } else {
                0
            }
        },
        None => 0,
    }
}

/// Cut one page out of `items`: the slice starting at the cursor's index, at
/// most one page size long, and the cursor of the next page when items
/// remain beyond it. With no parameters the whole list is returned.
pub fn paginate<T>(items: Vec<T>, pagination: Option<&PaginationParams>) -> (r: (
    Vec<T>,
    PaginationResult,
))
    ensures
        match pagination {
            None => r.0@ == items@ && r.1.next_cursor is None,
            Some(p) => {
                let start = spec_cursor_start(
                    match p.cursor {
                        Some(ref c) => Some(c@),
                        None => None,
                    },
                );
                r.0@ == spec_page(items@, start) && (match (
                    &r.1.next_cursor,
                    spec_next_cursor(items@, start),
                ) {
                    (Some(c), Some(s)) => c@ == s,
                    (None, None) => true,
                    _ => false,
                })
            },
        },
{
    let mut items = items;
    match pagination {
        None => (items, PaginationResult { next_cursor: None }),
        Some(p) => {
            let start: usize = match &p.cursor {
                Some(c) => cursor_start(c),
                None => 0,
            };
            if start >= items.len() {
                proof {
                    assert(spec_page(items@, start as nat) =~= Seq::<T>::empty());
                }
                return (Vec::new(), PaginationResult { next_cursor: None });
            }
            let mut page = items.split_off(start);
            let next = if page.len() > 50 {
                page.truncate(50);
                Some(u64_to_string((start as u64) + 50))
            } else {
                None
            };
            proof {
                assert(page@ =~= spec_page(items@ + page@, start as nat));
            }
            (page, PaginationResult { next_cursor: next })
        },
    }
}

/// All items from `start` on, read page by page through the next cursors.
pub open spec fn spec_pages_from<T>(items: Seq<T>, start: nat) -> Seq<T>
    decreases items.len() - start,
{
    if start + spec_page_size() < items.len() {
        spec_page(items, start) + spec_pages_from(items, start + spec_page_size())
    } else {
        spec_page(items, start)
    }
}

proof fn lemma_pages_from_skip<T>(items: Seq<T>, start: nat)
    requires
        start <= items.len(),
    ensures
        spec_pages_from(items, start) == items.skip(start as int),
    decreases items.len() - start,
{
    if start + spec_page_size() < items.len() {
        lemma_pages_from_skip(items, start + spec_page_size());
        assert(spec_page(items, start) + items.skip(start as int + 50) =~= items.skip(
            start as int,
        ));
    } else {
        assert(spec_page(items, start) =~= items.skip(start as int));
    }
}

/// Concatenating successive pages, following each next cursor from the
/// start, yields the full list exactly once.
pub proof fn lemma_pagination_exhaustive<T>(items: Seq<T>)
    ensures
        spec_pages_from(items, 0) == items,
{
    lemma_pages_from_skip(items, 0);
    assert(items.skip(0) =~= items);
}

/// The next cursor decodes to the next page's start index: following it
/// resumes exactly where the previous page ended.
pub proof fn lemma_next_cursor_resumes<T>(items: Seq<T>, start: nat)
    requires
        spec_next_cursor(items, start) is Some,
        start + spec_page_size() <= usize::MAX,
    ensures
        spec_cursor_start(spec_next_cursor(items, start)) == start + spec_page_size(),
{
    let c = spec_next_cursor(items, start)->Some_0;
    lemma_dec_of_digits(start + spec_page_size());
    lemma_dec_val_of_dec_of(start + spec_page_size());
}

} // verus!
