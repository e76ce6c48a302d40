//! What a store of document text offers to the layers above it.

use crate::graphemes::segments;
use crate::rope::{extracted, inserted, removed};
use vstd::prelude::*;

verus! {

/// The grapheme cluster before which an insertion at `at` takes place in
/// a document of `length` clusters: `at`, or the end where `at` lies past
/// it.
pub open spec fn insertion_place(length: nat, at: int) -> int {
    if at < length {
        at
    } else {
        length as int
    }
}

/// The place one past `at`, as far as a `usize` reaches.
pub open spec fn one_past(at: int) -> int {
    if at < usize::MAX {
        at + 1
    } else {
        at
    }
}

/// The cursor after `count` clusters are deleted at `at`: one past `at`,
/// less the clusters deleted, and not below 0.
pub open spec fn cursor_after_delete(at: int, count: int) -> int {
    if one_past(at) >= count {
        one_past(at) - count
    } else {
        0
    }
}

/// A store of document text that is edited by grapheme cluster and that
/// can take its edits back.
pub trait TextRepresentation {
    /// The grapheme clusters of the document, in order.
    spec fn content(&self) -> Seq<Seq<char>>;

    /// The invariant of the store.
    spec fn valid(&self) -> bool;

    /// Puts the grapheme clusters of `content` in before cluster `index`,
    /// or at the end where `index` lies past it, and returns the cursor:
    /// the place after what was put in. A text that the document has no
    /// room for changes nothing.
    fn insert(&mut self, content: String, index: usize) -> (cursor: usize)
        requires
            old(self).valid(),
        ensures
            final(self).valid(),
            old(self).content().len() + segments(content@).len() <= usize::MAX ==> {
                &&& final(self).content() == inserted(
                    old(self).content(),
                    index as int,
                    segments(content@),
                )
                &&& cursor == insertion_place(old(self).content().len(), index as int) + segments(
                    content@,
                ).len()
            },
            old(self).content().len() + segments(content@).len() > usize::MAX ==> {
                &&& final(self).content() == old(self).content()
                &&& cursor == insertion_place(old(self).content().len(), index as int)
            },
    ;

    /// Takes `length_to_cut` grapheme clusters out, starting with cluster
    /// `index`, and returns the cursor. A range that runs past the end
    /// stops at the end.
    fn delete(&mut self, length_to_cut: usize, index: usize) -> (cursor: usize)
        requires
            old(self).valid(),
        ensures
            final(self).valid(),
            final(self).content() == removed(
                old(self).content(),
                index as int,
                length_to_cut as int,
            ),
            cursor == cursor_after_delete(index as int, length_to_cut as int),
    ;

    /// Takes the last edit back and returns the cursor to restore, or
    /// nothing where there is no edit to take back.
    fn undo(&mut self) -> (cursor: Option<usize>)
        requires
            old(self).valid(),
        ensures
            final(self).valid(),
            cursor is None ==> final(self).content() == old(self).content(),
    ;

    /// Makes the edit again that was last taken back and returns the
    /// cursor to restore, or nothing where there is no such edit.
    fn redo(&mut self) -> (cursor: Option<usize>)
        requires
            old(self).valid(),
        ensures
            final(self).valid(),
            cursor is None ==> final(self).content() == old(self).content(),
    ;

    /// Appends the text of the document to `text`.
    fn collect_string(&self, text: &mut String)
        requires
            self.valid(),
        ensures
            final(text)@ == old(text)@ + self.content().flatten(),
    ;

    /// Appends the text of the grapheme clusters `bounds.0..=bounds.1` to
    /// `text`. An end past the last cluster counts as the last; a start
    /// that is not below the length, or after the end, appends nothing.
    fn collect_substring(&self, text: &mut String, bounds: (usize, usize))
        requires
            self.valid(),
        ensures
            final(text)@ == old(text)@ + extracted(
                self.content(),
                bounds.0 as int,
                bounds.1 as int,
            ).flatten(),
    ;
}

} // verus!
