//! Every move of the state machine keeps its state well formed.

use vstd::prelude::*;
use crate::chars::{lemma_blank_run, lemma_cursor_monotone, lemma_run_width_bound};
use crate::machine::{
    blank_run, line_rest, name_len, parts_fit, resolve, resolve_part, with_text,
    Machine, Mode, Slice,
};
use crate::token::{lemma_name_text_push, not_after, part_text, MoveKind, NamePart, Position};

verus! {

/// A comment ends inside the text.
pub proof fn lemma_line_rest(text: Seq<char>, from: nat)
    requires
        from <= text.len(),
    ensures
        from + line_rest(text, from) <= text.len(),
    decreases text.len() - from,
{
    if from < text.len() && text[from as int] != '\n' {
        lemma_line_rest(text, from + 1);
    }
}

/// Resolving goes part by part.
pub proof fn lemma_resolve_push(text: Seq<char>, parts: Seq<NamePart<Slice>>, part: NamePart<Slice>)
    ensures
        resolve(text, parts.push(part)) == resolve(text, parts).push(resolve_part(text, part)),
        name_len(text, parts.push(part)) == name_len(text, parts) + part_text(
            resolve_part(text, part),
        ).len(),
{
    assert(resolve(text, parts.push(part)) =~= resolve(text, parts).push(
        resolve_part(text, part),
    ));
    lemma_name_text_push(resolve(text, parts), resolve_part(text, part));
}

/// A name of one part is as long as that part.
pub proof fn lemma_name_len_single(text: Seq<char>, part: NamePart<Slice>)
    ensures
        name_len(text, seq![part]) == part_text(resolve_part(text, part)).len(),
{
    let none = Seq::<NamePart<Slice>>::empty();
    assert(seq![part] =~= none.push(part));
    lemma_resolve_push(text, none, part);
    assert(resolve(text, none) =~= Seq::<NamePart<Seq<char>>>::empty());
}

/// A name is as long as all its parts but the last, and the last.
pub proof fn lemma_name_len_last(text: Seq<char>, parts: Seq<NamePart<Slice>>)
    requires
        parts.len() > 0,
    ensures
        name_len(text, parts) == name_len(text, parts.drop_last()) + part_text(
            resolve_part(text, parts.last()),
        ).len(),
{
    assert(parts =~= parts.drop_last().push(parts.last()));
    lemma_resolve_push(text, parts.drop_last(), parts.last());
}

/// The parts of a name still fit after a character of ordinary text was
/// read and added to them.
pub proof fn lemma_with_text_fits(text: Seq<char>, parts: Seq<NamePart<Slice>>, index: usize)
    requires
        index < text.len(),
        parts_fit(text, parts, index as nat),
    ensures
        parts_fit(text, with_text(parts, index), (index + 1) as nat),
{
    let grown = with_text(parts, index);
    match parts.last() {
        NamePart::Ident(slice) => {
            let last = NamePart::Ident(Slice { start: slice.start, end: index });
            assert(grown.drop_last() =~= parts.drop_last());
            assert(grown.last() == last);
            lemma_name_len_last(text, parts);
            lemma_name_len_last(text, grown);
            assert forall|i: int| 0 <= i < grown.len() implies (#[trigger] grown[i] matches NamePart::Ident(
                s,
            ) ==> s.start <= s.end < index + 1) by {
                if i < grown.len() - 1 {
                    assert(grown[i] == parts[i]);
                }
            }
        },
        _ => {
            lemma_resolve_push(
                text,
                parts,
                NamePart::Ident(Slice { start: index, end: index }),
            );
            assert forall|i: int| 0 <= i < grown.len() implies (#[trigger] grown[i] matches NamePart::Ident(
                s,
            ) ==> s.start <= s.end < index + 1) by {
                if i < grown.len() - 1 {
                    assert(grown[i] == parts[i]);
                }
            }
        },
    }
}

/// The parts of a name still fit after a marker was read and added.
pub proof fn lemma_marker_fits(
    text: Seq<char>,
    parts: Seq<NamePart<Slice>>,
    part: NamePart<Slice>,
    pos: nat,
)
    requires
        !(part is Ident),
        parts_fit(text, parts, pos),
    ensures
        parts_fit(text, parts.push(part), pos + 1),
{
    let grown = parts.push(part);
    lemma_resolve_push(text, parts, part);
    assert forall|i: int| 0 <= i < grown.len() implies (#[trigger] grown[i] matches NamePart::Ident(
        s,
    ) ==> s.start <= s.end < pos + 1) by {
        if i < grown.len() - 1 {
            assert(grown[i] == parts[i]);
        }
    }
}

impl Machine {
    /// The state right after a character was read from a well-formed
    /// state that owed no token.
    pub open spec fn just_read(self) -> bool {
        &&& 1 <= self.pos <= self.text.len()
        &&& self.pending is None
        &&& self.moved_to((self.pos - 1) as nat).wf()
    }

    /// Reading on without acting keeps the state well formed.
    pub proof fn lemma_read_on(self, n: nat)
        requires
            self.wf(),
            self.pending is None,
            self.pos + n <= self.text.len(),
        ensures
            self.moved_to(self.pos + n).wf(),
    {
        lemma_cursor_monotone(self.text, self.pos, self.pos + n);
    }

    /// Ending a line keeps the state well formed.
    pub proof fn lemma_end_line_wf(self, at: Position)
        requires
            self.wf(),
            self.pending is None,
            not_after(at, self.cursor()),
        ensures
            self.end_line(at).0.wf(),
    {
    }

    /// Passing over a comment keeps the state well formed.
    pub proof fn lemma_line_comment_wf(self)
        requires
            self.just_read(),
        ensures
            self.line_comment().0.wf(),
    {
        let before = self.moved_to((self.pos - 1) as nat);
        lemma_line_rest(self.text, self.pos);
        let n = line_rest(self.text, self.pos);
        before.lemma_read_on(1 + n);
        lemma_cursor_monotone(self.text, self.pos, self.pos + n);
        self.moved_to(self.pos + n).lemma_end_line_wf(self.cursor());
    }

    /// A line feed keeps the state well formed.
    pub proof fn lemma_newline_wf(self)
        requires
            self.just_read(),
        ensures
            self.newline().0.wf(),
    {
        let before = self.moved_to((self.pos - 1) as nat);
        before.lemma_read_on(1);
        self.lemma_end_line_wf(self.cursor());
    }

    /// A space or a tab keeps the state well formed: a measured width is
    /// at most four times what was read.
    pub proof fn lemma_white_space_wf(self, delta: nat)
        requires
            self.just_read(),
            delta <= 4,
        ensures
            self.white_space(delta).0.wf(),
    {
        let before = self.moved_to((self.pos - 1) as nat);
        before.lemma_read_on(1);
        lemma_blank_run(self.text, self.pos);
        lemma_run_width_bound(self.text, self.pos, blank_run(self.text, self.pos));
    }

    /// Beginning a name keeps the state well formed.
    pub proof fn lemma_set_partial_wf(self, part: NamePart<Slice>)
        requires
            self.just_read(),
            !(self.mode is PartialName),
            part matches NamePart::Ident(slice) ==> slice.start == slice.end < self.pos,
        ensures
            self.set_partial(part).0.wf(),
    {
        lemma_name_len_single(self.text, part);
    }

    /// A marker keeps the state well formed.
    pub proof fn lemma_single_name_wf(self, part: NamePart<Slice>)
        requires
            self.just_read(),
            !(part is Ident),
        ensures
            self.single_name(part).0.wf(),
    {
        let before = self.moved_to((self.pos - 1) as nat);
        before.lemma_read_on(1);
        match self.mode {
            Mode::PartialName { start, parts } => {
                lemma_marker_fits(self.text, parts, part, before.pos);
            },
            _ => {
                self.lemma_set_partial_wf(part);
            },
        }
    }

    /// A character of ordinary text keeps the state well formed.
    pub proof fn lemma_name_wf(self, index: usize)
        requires
            self.just_read(),
            index < self.pos,
            self.mode is PartialName ==> index + 1 == self.pos,
        ensures
            self.name(index).0.wf(),
    {
        let before = self.moved_to((self.pos - 1) as nat);
        before.lemma_read_on(1);
        match self.mode {
            Mode::PartialName { start, parts } => {
                lemma_with_text_fits(self.text, parts, index);
            },
            _ => {
                self.lemma_set_partial_wf(NamePart::Ident(Slice { start: index, end: index }));
            },
        }
    }

    /// An operator's first character keeps the state well formed, whether
    /// the operator is completed or not.
    pub proof fn lemma_move_kind_wf(self, start: usize, kind: MoveKind)
        requires
            self.just_read(),
            start < self.pos,
        ensures
            self.move_kind(start, kind).0.wf(),
    {
        let before = self.moved_to((self.pos - 1) as nat);
        let cleared = Machine { mode: Mode::Normal, ..self };
        if self.at_end() {
            cleared.lemma_name_wf(start);
        } else {
            Machine { mode: Mode::Normal, ..before }.lemma_read_on(2);
            cleared.advance().lemma_name_wf(start);
        }
    }

    /// The end of the text keeps the state well formed.
    pub proof fn lemma_finalizer_wf(self)
        requires
            self.wf(),
            self.pending is None,
        ensures
            self.finalizer().0.wf(),
    {
    }

    /// One step keeps the state well formed.
    pub proof fn lemma_step_wf(self)
        requires
            self.wf(),
            self.pending is None,
            !self.at_end(),
        ensures
            self.step().0.wf(),
    {
        let read = self.advance();
        let index = self.pos as usize;
        let c = self.text[self.pos as int];
        assert(read.just_read());
        if c == '#' {
            read.lemma_line_comment_wf();
        } else if c == '\n' {
            read.lemma_newline_wf();
        } else if c == ' ' {
            read.lemma_white_space_wf(1);
        } else if c == '\t' {
            read.lemma_white_space_wf(4);
        } else if c == '>' {
            read.lemma_move_kind_wf(index, MoveKind::Copy);
        } else if c == '-' {
            read.lemma_move_kind_wf(index, MoveKind::Link);
        } else if c == '*' {
            read.lemma_single_name_wf(NamePart::Star);
        } else if c == '&' {
            read.lemma_single_name_wf(NamePart::Ampersand);
        } else if c == '/' {
            read.lemma_single_name_wf(NamePart::Slash);
        } else {
            read.lemma_name_wf(index);
        }
    }

    /// One pull keeps the state well formed.
    pub proof fn lemma_next_wf(self)
        requires
            self.wf(),
        ensures
            self.next().0.wf(),
        decreases self.unread(),
    {
        if self.pending is Some {
        } else if self.at_end() {
            self.lemma_finalizer_wf();
        } else {
            self.lemma_step_wf();
            self.lemma_step_reads();
            if self.step().1 is None {
                self.step().0.lemma_next_wf();
            }
        }
    }
}

} // verus!
