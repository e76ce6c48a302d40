//! A display line: the text of one segment of a logical line, tagged with
//! the part it plays in the wrapping of that line.

use crate::graphemes::{grapheme_count, grapheme_start_offsets, segments};
use crate::lines::{split_lines, text_lines};
use crate::rc_substr::RcSubstr;
use crate::rope::{extracted, lemma_text_split};
use crate::text_representation::TextRepresentation;
use std::rc::Rc;
use vstd::prelude::*;
use vstd::string::*;

verus! {

/// The part that a display line plays in the wrapping of a logical line.
#[derive(Clone, Copy, Debug, PartialEq, Eq, Structural)]
pub enum TypeOfLine {
    /// The first segment of a wrapped line.
    Parent,
    /// A segment between the first and the last.
    Child,
    /// A whole logical line that fits the display unsplit.
    Independent,
    /// The last segment of a wrapped line.
    Terminator,
}

impl Default for TypeOfLine {
    fn default() -> (kind: Self)
        ensures
            kind == TypeOfLine::Independent,
    {
        TypeOfLine::Independent
    }
}

impl TypeOfLine {
    /// Whether a segment of this kind opens its logical line.
    pub open spec fn opens_line(self) -> bool {
        self == TypeOfLine::Independent || self == TypeOfLine::Parent
    }

    /// Whether a segment of this kind closes its logical line, so that a
    /// line break follows it in the document.
    pub open spec fn closes_line(self) -> bool {
        self == TypeOfLine::Independent || self == TypeOfLine::Terminator
    }

    /// The kind of a segment that opens, or closes, its logical line as
    /// said.
    pub open spec fn spec_between(opens: bool, closes: bool) -> TypeOfLine {
        if opens && closes {
            TypeOfLine::Independent
        } else if opens {
            TypeOfLine::Parent
        } else if closes {
            TypeOfLine::Terminator
        } else {
            TypeOfLine::Child
        }
    }

    /// Whether a segment of this kind opens its logical line.
    pub fn is_opening(self) -> (opens: bool)
        ensures
            opens == self.opens_line(),
    {
        match self {
            TypeOfLine::Independent => true,
            TypeOfLine::Parent => true,
            TypeOfLine::Child => false,
            TypeOfLine::Terminator => false,
        }
    }

    /// Whether a segment of this kind closes its logical line.
    pub fn is_closing(self) -> (closes: bool)
        ensures
            closes == self.closes_line(),
    {
        match self {
            TypeOfLine::Independent => true,
            TypeOfLine::Terminator => true,
            TypeOfLine::Parent => false,
            TypeOfLine::Child => false,
        }
    }

    /// The kind of a segment that opens, or closes, its logical line as
    /// said.
    pub fn between(opens: bool, closes: bool) -> (kind: TypeOfLine)
        ensures
            kind == TypeOfLine::spec_between(opens, closes),
    {
        if opens && closes {
            TypeOfLine::Independent
        } else if opens {
            TypeOfLine::Parent
        } else if closes {
            TypeOfLine::Terminator
        } else {
            TypeOfLine::Child
        }
    }
}

/// What a display line is to a specification: its text and its kind.
#[verifier::ext_equal]
pub struct LineModel {
    pub text: Seq<char>,
    pub kind: TypeOfLine,
}

impl LineModel {
    /// The width of the line: its number of grapheme clusters.
    pub open spec fn width(self) -> nat {
        grapheme_count(self.text)
    }

    /// The room that the line takes in the document: its width, and one
    /// more for the line break where it closes its logical line.
    pub open spec fn offset_width(self) -> nat {
        if self.kind.closes_line() {
            self.width() + 1
        } else {
            self.width()
        }
    }
}

/// The models of a list of lines.
pub open spec fn line_models(lines: Seq<TextEditorLine>) -> Seq<LineModel> {
    lines.map_values(|line: TextEditorLine| line.model())
}

/// One display line.
#[derive(Debug)]
pub struct TextEditorLine {
    line: String,
    type_of_line: TypeOfLine,
}

impl View for TextEditorLine {
    type V = Seq<char>;

    /// The text of the line.
    closed spec fn view(&self) -> Seq<char> {
        self.line@
    }
}

impl Default for TextEditorLine {
    /// An empty line that stands for a whole logical line.
    fn default() -> (made: Self)
        ensures
            made@ == Seq::<char>::empty(),
            made.kind() == TypeOfLine::Independent,
    {
        TextEditorLine { line: String::new(), type_of_line: TypeOfLine::Independent }
    }
}

impl TextEditorLine {
    /// The part that the line plays in its logical line.
    pub closed spec fn kind(&self) -> TypeOfLine {
        self.type_of_line
    }

    /// The text and the kind of the line.
    pub open spec fn model(&self) -> LineModel {
        LineModel { text: self@, kind: self.kind() }
    }

    /// The width of the line: its number of grapheme clusters.
    pub open spec fn width(&self) -> nat {
        self.model().width()
    }

    /// The room that the line takes in the document: its width, and one
    /// more for the line break where it closes its logical line.
    pub open spec fn offset_width(&self) -> nat {
        self.model().offset_width()
    }

    /// A line with the given text and kind.
    pub fn new(line: String, type_of_line: TypeOfLine) -> (made: Self)
        ensures
            made@ == line@,
            made.kind() == type_of_line,
    {
        Self { line, type_of_line }
    }

    /// Gives the line the text of the grapheme clusters
    /// `bounds.0..=bounds.1` of the document.
    pub fn change_line<T: TextRepresentation>(
        &mut self,
        bounds: (usize, usize),
        text_representation: &T,
    )
        requires
            text_representation.valid(),
        ensures
            final(self)@ == extracted(
                text_representation.content(),
                bounds.0 as int,
                bounds.1 as int,
            ).flatten(),
            final(self).kind() == old(self).kind(),
    {
        self.line = String::new();
        text_representation.collect_substring(&mut self.line, bounds);
        assert(Seq::<char>::empty() + extracted(
            text_representation.content(),
            bounds.0 as int,
            bounds.1 as int,
        ).flatten() =~= extracted(
            text_representation.content(),
            bounds.0 as int,
            bounds.1 as int,
        ).flatten());
    }

    /// Appends `new_content` to the line.
    pub fn add_to_line(&mut self, new_content: &str)
        ensures
            final(self)@ == old(self)@ + new_content@,
            final(self).kind() == old(self).kind(),
    {
        self.line.append(new_content);
    }

    /// The width of the line: its number of grapheme clusters.
    pub fn get_line_length(&self) -> (length: usize)
        ensures
            length == self.width(),
    {
        grapheme_start_offsets(self.line.as_str()).len()
    }

    /// The room that the line takes in the document: its width, and one
    /// more for the line break where it closes its logical line.
    pub fn get_line_length_for_offset(&self) -> (length: usize)
        requires
            self.offset_width() <= usize::MAX,
        ensures
            length == self.offset_width(),
    {
        let width: usize = self.get_line_length();
        match self.type_of_line {
            TypeOfLine::Independent => width + 1,
            TypeOfLine::Child => width,
            TypeOfLine::Terminator => width + 1,
            TypeOfLine::Parent => width,
        }
    }

    /// The text of the line.
    pub fn line(&self) -> (text: &str)
        ensures
            text@ == self@,
    {
        self.line.as_str()
    }

    /// Empties the line.
    pub fn clear_line(&mut self)
        ensures
            final(self)@ == Seq::<char>::empty(),
            final(self).kind() == old(self).kind(),
    {
        self.line = String::new();
    }

    /// Whether the line stands for a whole logical line.
    pub fn is_independent(&self) -> (independent: bool)
        ensures
            independent == (self.kind() == TypeOfLine::Independent),
    {
        match self.type_of_line {
            TypeOfLine::Independent => true,
            _ => false,
        }
    }

    /// Cuts the line before grapheme cluster `cut_position`: the line
    /// keeps the clusters before it and the rest is returned. A position
    /// past the end counts as the end, so that the line keeps its text.
    pub fn split_line(&mut self, cut_position: usize) -> (second_part: String)
        ensures
            final(self).kind() == old(self).kind(),
            old(self)@ == final(self)@ + second_part@,
            ({
                let clusters = segments(old(self)@);
                let place = if cut_position < clusters.len() {
                    cut_position as int
                } else {
                    clusters.len() as int
                };
                &&& final(self)@ == clusters.subrange(0, place).flatten()
                &&& second_part@ == clusters.subrange(place, clusters.len() as int).flatten()
            }),
    {
        let mut full_string: String = String::new();
        std::mem::swap(&mut self.line, &mut full_string);
        let clusters = RcSubstr::new(Rc::new(full_string));
        let count: usize = clusters.len();
        let cut: usize = if cut_position < count {
            cut_position
        } else {
            count
        };
        let first_part: String = String::from_str(clusters.substr(0..cut).as_str());
        let second_part: String = String::from_str(clusters.substr(cut..count).as_str());
        proof {
            lemma_text_split(clusters@, cut as int);
        }
        self.line = first_part;
        second_part
    }

    /// The part that the line plays in its logical line.
    pub fn type_of_line(&self) -> (kind: &TypeOfLine)
        ensures
            *kind == self.kind(),
    {
        &self.type_of_line
    }

    /// Gives the line another part to play.
    pub fn set_type_of_line(&mut self, type_of_line: TypeOfLine)
        ensures
            final(self)@ == old(self)@,
            final(self).kind() == type_of_line,
    {
        self.type_of_line = type_of_line;
    }
}

/// The display lines of a wrapped logical line, from the grapheme
/// clusters that are left of it: segments of `width` clusters, and a last
/// segment of fewer, which may be empty. `first` says whether the
/// segments start with the first of the line.
pub open spec fn chunked(clusters: Seq<Seq<char>>, width: nat, first: bool) -> Seq<LineModel>
    decreases clusters.len(),
{
    if width == 0 || clusters.len() < width {
        seq![
            LineModel { text: clusters.flatten(), kind: TypeOfLine::spec_between(first, true) },
        ]
    } else {
        seq![
            LineModel {
                text: clusters.subrange(0, width as int).flatten(),
                kind: TypeOfLine::spec_between(first, false),
            },
        ] + chunked(clusters.subrange(width as int, clusters.len() as int), width, false)
    }
}

/// The display lines of a logical line with the given grapheme clusters:
/// one independent line where the clusters fit the width, and the
/// segments of [`chunked`] where they do not.
pub open spec fn wrapped(clusters: Seq<Seq<char>>, width: nat) -> Seq<LineModel> {
    if clusters.len() <= width {
        seq![LineModel { text: clusters.flatten(), kind: TypeOfLine::Independent }]
    } else {
        chunked(clusters, width, true)
    }
}

/// The display lines of a list of logical lines, in order.
pub open spec fn wrapped_lines(lines: Seq<Seq<char>>, width: nat) -> Seq<LineModel>
    decreases lines.len(),
{
    if lines.len() == 0 {
        Seq::empty()
    } else {
        wrapped_lines(lines.drop_last(), width) + wrapped(segments(lines.last()), width)
    }
}

/// Appends to `lines` the display lines of a logical line with the given
/// grapheme clusters, wrapped at `width` clusters.
pub fn wrap_line(clusters: &RcSubstr, width: usize, lines: &mut Vec<TextEditorLine>)
    requires
        clusters.well_formed(),
        width > 0,
    ensures
        line_models(final(lines)@) == line_models(old(lines)@) + wrapped(clusters@, width as nat),
{
    let count: usize = clusters.len();
    let ghost before = line_models(lines@);
    if count <= width {
        let text: String = String::from_str(clusters.as_str());
        lines.push(TextEditorLine::new(text, TypeOfLine::Independent));
        assert(line_models(lines@) =~= before + wrapped(clusters@, width as nat));
        return ;
    }
    let mut from: usize = 0;
    let mut first: bool = true;
    assert(clusters@.subrange(0, count as int) =~= clusters@);
    while count - from >= width
        invariant
            clusters.well_formed(),
            count == clusters@.len(),
            width > 0,
            from <= count,
            line_models(lines@) + chunked(
                clusters@.subrange(from as int, count as int),
                width as nat,
                first,
            ) == before + chunked(clusters@, width as nat, true),
        decreases count - from,
    {
        let ghost rest = clusters@.subrange(from as int, count as int);
        let ghost so_far = line_models(lines@);
        let text: String = String::from_str(clusters.substr(from..from + width).as_str());
        let line = TextEditorLine::new(text, TypeOfLine::between(first, false));
        lines.push(line);
        proof {
            assert(rest.subrange(0, width as int) =~= clusters@.subrange(
                from as int,
                from + width,
            ));
            assert(rest.subrange(width as int, rest.len() as int) =~= clusters@.subrange(
                from + width,
                count as int,
            ));
            assert(line_models(lines@) =~= so_far.push(line.model()));
            assert(so_far.push(line.model()) + chunked(
                clusters@.subrange(from + width, count as int),
                width as nat,
                false,
            ) =~= so_far + chunked(rest, width as nat, first));
        }
        from = from + width;
        first = false;
    }
    let ghost so_far = line_models(lines@);
    let text: String = String::from_str(clusters.substr(from..count).as_str());
    let line = TextEditorLine::new(text, TypeOfLine::between(first, true));
    lines.push(line);
    proof {
        assert(line_models(lines@) =~= so_far.push(line.model()));
        assert(so_far.push(line.model()) =~= so_far + chunked(
            clusters@.subrange(from as int, count as int),
            width as nat,
            first,
        ));
    }
}

/// The display lines of `content`, wrapped at `width` grapheme clusters,
/// laid out as a gap buffer: the lines, then a gap of one empty line for
/// each logical line, and of one where there is none. Returns the slots
/// with the first and the last slot of the gap.
pub fn generate_lines(content: &str, width: usize) -> (layout: (Vec<TextEditorLine>, usize, usize))
    requires
        width > 0,
    ensures
        line_models(layout.0@.subrange(0, layout.1 as int)) == wrapped_lines(
            text_lines(content@),
            width as nat,
        ),
        layout.1 <= layout.2,
        layout.2 + 1 == layout.0@.len(),
        layout.2 - layout.1 + 1 == if text_lines(content@).len() == 0 {
            1
        } else {
            text_lines(content@).len()
        },
        forall|slot: int|
            layout.1 <= slot <= layout.2 ==> (#[trigger] layout.0@[slot]).model() == (LineModel {
                text: Seq::<char>::empty(),
                kind: TypeOfLine::Independent,
            }),
{
    let lines: Vec<&str> = split_lines(content);
    let lines_count: usize = lines.len();
    let mut my_lines: Vec<TextEditorLine> = Vec::new();
    let ghost all = text_lines(content@);
    let mut row: usize = 0;
    assert(all.subrange(0, 0) =~= Seq::<Seq<char>>::empty());
    assert(line_models(my_lines@) =~= Seq::<LineModel>::empty());
    while row < lines_count
        invariant
            width > 0,
            row <= lines_count,
            lines_count == lines@.len(),
            all == text_lines(content@),
            lines@.len() == all.len(),
            forall|i: int| 0 <= i < lines@.len() ==> (#[trigger] lines@[i])@ == all[i],
            line_models(my_lines@) == wrapped_lines(all.subrange(0, row as int), width as nat),
        decreases lines_count - row,
    {
        let item: String = String::from_str(lines[row]);
        let clusters = RcSubstr::new(Rc::new(item));
        proof {
            assert(all.subrange(0, row + 1).drop_last() =~= all.subrange(0, row as int));
        }
        wrap_line(&clusters, width, &mut my_lines);
        row = row + 1;
    }
    assert(all.subrange(0, row as int) =~= all);
    let starting_of_gap: usize = my_lines.len();
    let ghost made = my_lines@;
    let gap: usize = if lines_count == 0 {
        1
    } else {
        lines_count
    };
    let mut slot: usize = 0;
    while slot < gap
        invariant
            slot <= gap,
            my_lines@.len() == starting_of_gap + slot,
            my_lines@.subrange(0, starting_of_gap as int) == made,
            forall|at: int|
                starting_of_gap <= at < starting_of_gap + slot ==> (
                #[trigger] my_lines@[at]).model() == (LineModel {
                    text: Seq::<char>::empty(),
                    kind: TypeOfLine::Independent,
                }),
        decreases gap - slot,
    {
        let empty = TextEditorLine::default();
        assert(empty.model() =~= LineModel {
            text: Seq::<char>::empty(),
            kind: TypeOfLine::Independent,
        });
        my_lines.push(empty);
        slot = slot + 1;
        assert(my_lines@.subrange(0, starting_of_gap as int) =~= made);
    }
    let ending_of_gap: usize = my_lines.len() - 1;
    (my_lines, starting_of_gap, ending_of_gap)
}

} // verus!
