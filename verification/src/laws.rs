//! What holds of every run of tokens.

use vstd::prelude::*;
use crate::chars::{lemma_blank_run, lemma_cursor_monotone};
use crate::machine::{
    blank_run, completes, cursor_at, line_rest, name_len, resolve, resolve_part, with_text,
    Machine, Mode, Slice,
};
use crate::token::{
    move_width, name_text, not_after, KindView, MoveKind, NamePart, Position, TokenView,
};
use crate::wellformed::{
    lemma_line_rest, lemma_name_len_last, lemma_name_len_single, lemma_resolve_push,
};

verus! {

/// By how much a token changes the open indentation.
pub open spec fn indent_change(token: TokenView) -> int {
    match token.kind {
        KindView::Indent(depth) => depth as int,
        KindView::DeIndent(depth) => -(depth as int),
        _ => 0,
    }
}

/// The change that a pull makes: that of its token, if it gave one.
pub open spec fn pull_change(token: Option<TokenView>) -> int {
    match token {
        Some(token) => indent_change(token),
        None => 0,
    }
}

/// All that was indented less all that was de-indented, over a run of
/// tokens.
pub open spec fn balance(tokens: Seq<TokenView>) -> int
    decreases tokens.len(),
{
    if tokens.len() == 0 {
        0
    } else {
        indent_change(tokens[0]) + balance(tokens.drop_first())
    }
}

/// Whether no token of the run stands before an earlier one.
pub open spec fn ordered(tokens: Seq<TokenView>) -> bool {
    forall|i: int, j: int|
        0 <= i <= j < tokens.len() ==> not_after(
            (#[trigger] tokens[i]).location,
            (#[trigger] tokens[j]).location,
        )
}

/// Whether every token of the run stands at or after `floor`.
pub open spec fn all_from(tokens: Seq<TokenView>, floor: Position) -> bool {
    forall|i: int| 0 <= i < tokens.len() ==> not_after(floor, (#[trigger] tokens[i]).location)
}

impl Machine {
    /// The place before which no token to come can stand: that of an owed
    /// token, else the start of the name that is being accumulated, else
    /// the cursor.
    pub open spec fn floor(self) -> Position {
        match self.pending {
            Some(token) => token.location,
            None => match self.mode {
                Mode::PartialName { start, .. } => start,
                _ => self.cursor(),
            },
        }
    }

    /// A step changes the indentation by what its token says.
    pub proof fn lemma_step_change(self)
        requires
            self.wf(),
            self.pending is None,
            !self.at_end(),
        ensures
            self.step().0.depth - self.depth == pull_change(self.step().1),
    {
    }

    /// A pull changes the indentation by what its token says, and the run
    /// ends only with all indentation closed.
    pub proof fn lemma_next_change(self)
        requires
            self.wf(),
        ensures
            self.next().0.depth - self.depth == pull_change(self.next().1),
            self.next().1 is None ==> self.next().0.depth == 0,
        decreases self.unread(),
    {
        if self.pending is None && !self.at_end() {
            self.lemma_step_change();
            if self.step().1 is None {
                self.lemma_step_wf();
                self.lemma_step_reads();
                self.step().0.lemma_next_change();
            }
        }
    }

    /// The tokens to come close exactly the indentation that is open.
    pub proof fn lemma_balance_from(self)
        requires
            self.wf(),
        ensures
            balance(self.tokens()) + self.depth == 0,
        decreases self.fuel(),
    {
        self.lemma_next_change();
        match self.next().1 {
            Some(token) => {
                self.lemma_next_burns();
                self.lemma_next_wf();
                let after = self.next().0;
                after.lemma_balance_from();
                assert(self.tokens().drop_first() =~= after.tokens());
            },
            None => {},
        }
    }

    /// A step gives its token between the floor before and the floor
    /// after, and never lowers the floor.
    pub proof fn lemma_step_floor(self)
        requires
            self.wf(),
            self.pending is None,
            !self.at_end(),
        ensures
            not_after(self.floor(), self.step().0.floor()),
            self.step().1 matches Some(token) ==> not_after(self.floor(), token.location)
                && not_after(token.location, self.step().0.floor()),
    {
        let text = self.text;
        let pos = self.pos;
        lemma_line_rest(text, pos + 1);
        lemma_blank_run(text, pos + 1);
        lemma_cursor_monotone(text, pos, pos + 1);
        lemma_cursor_monotone(text, pos + 1, pos + 1 + line_rest(text, pos + 1));
        lemma_cursor_monotone(text, pos + 1, pos + 1 + blank_run(text, pos + 1));
        lemma_cursor_monotone(text, pos + 1, pos + 2);
    }

    /// A pull gives its token between the floor before and the floor
    /// after.
    pub proof fn lemma_next_floor(self)
        requires
            self.wf(),
        ensures
            self.next().1 matches Some(token) ==> not_after(self.floor(), token.location)
                && not_after(token.location, self.next().0.floor()),
        decreases self.unread(),
    {
        if self.pending is None && !self.at_end() {
            self.lemma_step_floor();
            if self.step().1 is None {
                self.lemma_step_wf();
                self.lemma_step_reads();
                self.step().0.lemma_next_floor();
            }
        }
    }

    /// The tokens to come are in order, and none stands before the floor.
    pub proof fn lemma_ordered_from(self)
        requires
            self.wf(),
        ensures
            ordered(self.tokens()),
            all_from(self.tokens(), self.floor()),
        decreases self.fuel(),
    {
        self.lemma_next_floor();
        match self.next().1 {
            Some(token) => {
                self.lemma_next_burns();
                self.lemma_next_wf();
                let after = self.next().0;
                after.lemma_ordered_from();
                let run = self.tokens();
                let rest = after.tokens();
                assert(run =~= seq![token] + rest);
                assert forall|i: int| 0 <= i < run.len() implies not_after(
                    self.floor(),
                    (#[trigger] run[i]).location,
                ) && not_after(token.location, run[i].location) by {
                    if i > 0 {
                        assert(run[i] == rest[i - 1]);
                    }
                }
                assert forall|i: int, j: int| 0 <= i <= j < run.len() implies not_after(
                    (#[trigger] run[i]).location,
                    (#[trigger] run[j]).location,
                ) by {
                    if i > 0 {
                        assert(run[i] == rest[i - 1]);
                        assert(run[j] == rest[j - 1]);
                    }
                }
            },
            None => {},
        }
    }
}

/// Indentation balance: over the whole run of tokens of any text, what
/// was indented and what was de-indented sum to the same.
pub proof fn lemma_indentation_balance(text: Seq<char>)
    requires
        text.len() <= usize::MAX,
    ensures
        balance(Machine::start(text).tokens()) == 0,
{
    Machine::start(text).lemma_balance_from();
}

/// Location monotonicity: in the run of tokens of any text, no token
/// stands before an earlier one, by line first and column second.
pub proof fn lemma_locations_monotone(text: Seq<char>)
    requires
        text.len() <= usize::MAX,
    ensures
        ordered(Machine::start(text).tokens()),
{
    Machine::start(text).lemma_ordered_from();
}

/// Whether the parts of a name lie side by side in the text and end right
/// before `hi`: every run of text begins where the part before it ends,
/// and every marker stands where its character stands in the text.
pub open spec fn tiles(text: Seq<char>, parts: Seq<NamePart<Slice>>, hi: int) -> bool
    decreases parts.len(),
{
    if parts.len() == 0 {
        true
    } else {
        let rest = parts.drop_last();
        match parts.last() {
            NamePart::Ident(slice) => slice.start <= slice.end && slice.end + 1 == hi && tiles(
                text,
                rest,
                slice.start as int,
            ),
            NamePart::Star => 0 < hi <= text.len() && text[hi - 1] == '*' && tiles(
                text,
                rest,
                hi - 1,
            ),
            NamePart::Ampersand => 0 < hi <= text.len() && text[hi - 1] == '&' && tiles(
                text,
                rest,
                hi - 1,
            ),
            NamePart::Slash => 0 < hi <= text.len() && text[hi - 1] == '/' && tiles(
                text,
                rest,
                hi - 1,
            ),
        }
    }
}

/// Whether `token`, if it is a name, spells exactly the characters of
/// `text` from offset `lo` on, as many as its length says, and stands where
/// the cursor stood when the first of them had just been read, or, for a
/// name that began as a failed operator and grew over the character read
/// after it, when that character had just been read.
pub open spec fn spells_at(text: Seq<char>, token: TokenView, lo: nat) -> bool {
    token.kind matches KindView::Name(parts) ==> {
        &&& lo + token.length <= text.len()
        &&& name_text(parts) == text.subrange(lo as int, (lo + token.length) as int)
        &&& stands_at(text, token.location, token.length, lo)
    }
}

/// Whether a name of `length` characters that begins at offset `lo` can
/// stand at `at`.
pub open spec fn stands_at(text: Seq<char>, at: Position, length: nat, lo: nat) -> bool {
    at == cursor_at(text, lo + 1) || (length >= 3 && at == cursor_at(text, lo + 2))
}

/// Whether a token, if it is a name, spells the stretch of `text` at which
/// it stands.
pub open spec fn spells_source(text: Seq<char>, token: TokenView) -> bool {
    exists|lo: nat| spells_at(text, token, lo)
}

/// Parts that lie side by side spell exactly the text that they cover.
pub proof fn lemma_tiles_spell(text: Seq<char>, parts: Seq<NamePart<Slice>>, hi: int)
    requires
        tiles(text, parts, hi),
        0 <= hi <= text.len(),
    ensures
        name_len(text, parts) <= hi,
        name_text(resolve(text, parts)) == text.subrange(hi - name_len(text, parts), hi),
    decreases parts.len(),
{
    if parts.len() == 0 {
        assert(resolve(text, parts) =~= Seq::<NamePart<Seq<char>>>::empty());
        assert(name_text(resolve(text, parts)) =~= text.subrange(hi, hi));
    } else {
        let rest = parts.drop_last();
        let whole = resolve(text, parts);
        assert(whole.drop_last() =~= resolve(text, rest));
        assert(whole.last() == resolve_part(text, parts.last()));
        lemma_name_len_last(text, parts);
        match parts.last() {
            NamePart::Ident(slice) => {
                lemma_tiles_spell(text, rest, slice.start as int);
                let lo = slice.start - name_len(text, rest);
                assert(text.subrange(lo, slice.start as int) + text.subrange(
                    slice.start as int,
                    hi,
                ) =~= text.subrange(lo, hi));
            },
            _ => {
                lemma_tiles_spell(text, rest, hi - 1);
                let lo = hi - 1 - name_len(text, rest);
                assert(text.subrange(lo, hi - 1) + text.subrange(hi - 1, hi) =~= text.subrange(
                    lo,
                    hi,
                ));
                assert(text.subrange(hi - 1, hi) =~= seq![text[hi - 1]]);
            },
        }
    }
}

impl Machine {
    /// The machine that owes no token, all else as it is.
    pub open spec fn cleared(self) -> Machine {
        Machine { pending: None, ..self }
    }

    /// Whether the name that is being accumulated is whole: its parts lie
    /// side by side and end at the cursor, and it stands where a name that
    /// begins with them can stand.
    pub open spec fn intact(self) -> bool {
        self.mode matches Mode::PartialName { start, parts } ==> {
            &&& tiles(self.text, parts, self.pos as int)
            &&& name_len(self.text, parts) <= self.pos
            &&& stands_at(
                self.text,
                start,
                name_len(self.text, parts),
                (self.pos - name_len(self.text, parts)) as nat,
            )
        }
    }

    /// Whether the name that is being accumulated has lost a character: it
    /// is the first character of an operator alone, and the character that
    /// was read after it belongs to no part.
    pub open spec fn gapped(self) -> bool {
        self.mode matches Mode::PartialName { start, parts } && {
            &&& parts.len() == 1
            &&& parts[0] matches NamePart::Ident(slice)
            &&& slice.start == slice.end
            &&& slice.end + 2 == self.pos
            &&& start == self.cursor()
        }
    }

    /// Whether the name that is being accumulated is whole, or has lost a
    /// character that ordinary text can still cover.
    pub open spec fn sound(self) -> bool {
        self.intact() || self.gapped()
    }

    /// Whether the next step gives out a name that has lost a character, or
    /// adds a marker to it: then the loss can no longer be covered.
    pub open spec fn breaks(self) -> bool {
        self.gapped() && (self.at_end() || {
            let c = self.text[self.pos as int];
            c == '#' || c == '\n' || c == ' ' || c == '\t' || c == '*' || c == '&' || c == '/'
        })
    }

    /// Whether no step from here to the end of the text breaks a name.
    pub open spec fn never_breaks(self) -> bool
        decreases self.unread(),
    {
        if self.at_end() {
            !self.breaks()
        } else {
            proof {
                self.cleared().lemma_step_reads();
            }
            !self.breaks() && self.cleared().step().0.never_breaks()
        }
    }

    /// Name reconstruction, step by step. Where the name that is being
    /// accumulated is sound and the step does not break it, the name is
    /// sound after the step too; and a name that the step gives spells
    /// exactly the characters that end where the step began.
    pub proof fn lemma_step_name(self)
        requires
            self.wf(),
            self.pending is None,
            !self.at_end(),
            self.sound(),
            !self.breaks(),
        ensures
            self.step().0.sound(),
            self.step().1 matches Some(token) ==> (token.kind is Name ==> token.length <= self.pos
                && spells_at(self.text, token, (self.pos - token.length) as nat)),
    {
        let text = self.text;
        let c = text[self.pos as int];
        let index = self.pos as usize;
        let none = Seq::<NamePart<Slice>>::empty();
        let fresh = NamePart::Ident(Slice { start: index, end: index });
        if c == '>' || c == '-' || !(self.mode is PartialName) {
            assert(tiles(text, none, index as int));
            assert(seq![fresh].last() == fresh);
            assert(seq![fresh].drop_last() =~= none);
            assert(tiles(text, seq![fresh], index + 1));
            assert(seq![NamePart::<Slice>::Star].drop_last() =~= none);
            assert(seq![NamePart::<Slice>::Ampersand].drop_last() =~= none);
            assert(seq![NamePart::<Slice>::Slash].drop_last() =~= none);
            lemma_name_len_single(text, fresh);
            lemma_name_len_single(text, NamePart::Star);
            lemma_name_len_single(text, NamePart::Ampersand);
            lemma_name_len_single(text, NamePart::Slash);
        } else if self.gapped() {
            let first = self.mode->parts[0]->Ident_0;
            let grown = with_text(self.mode->parts, index);
            let whole = NamePart::Ident(Slice { start: first.start, end: index });
            assert(grown =~= seq![whole]);
            assert(seq![whole].last() == whole);
            assert(seq![whole].drop_last() =~= none);
            assert(tiles(text, none, first.start as int));
            assert(tiles(text, seq![whole], index + 1));
            lemma_name_len_single(text, whole);
        } else {
            let parts = self.mode->parts;
            lemma_tiles_spell(text, parts, self.pos as int);
            if c == '*' || c == '&' || c == '/' {
                let part = if c == '*' {
                    NamePart::<Slice>::Star
                } else if c == '&' {
                    NamePart::Ampersand
                } else {
                    NamePart::Slash
                };
                assert(parts.push(part).drop_last() =~= parts);
                lemma_resolve_push(text, parts, part);
            } else if c != '#' && c != '\n' && c != ' ' && c != '\t' {
                let grown = with_text(parts, index);
                if parts.last() is Ident {
                    assert(grown.drop_last() =~= parts.drop_last());
                    lemma_name_len_last(text, parts);
                    lemma_name_len_last(text, grown);
                } else {
                    assert(grown.drop_last() =~= parts);
                    lemma_resolve_push(text, parts, fresh);
                }
            }
        }
    }

    /// Name reconstruction at the end of the text: a name that comes out
    /// there spells exactly the text's last characters.
    pub proof fn lemma_finalizer_name(self)
        requires
            self.wf(),
            self.pending is None,
            self.at_end(),
            self.sound(),
            !self.breaks(),
        ensures
            self.finalizer().0.sound(),
            self.finalizer().1 matches Some(token) ==> (token.kind is Name ==> token.length
                <= self.pos && spells_at(self.text, token, (self.pos - token.length) as nat)),
    {
        match self.mode {
            Mode::PartialName { start, parts } => {
                lemma_tiles_spell(self.text, parts, self.pos as int);
            },
            _ => {},
        }
    }

    /// A pull from a state whose name is sound, in a run that breaks no
    /// name, leaves such a state, and a name that it gives spells the
    /// stretch of the text at which it stands.
    pub proof fn lemma_next_name(self)
        requires
            self.wf(),
            self.sound(),
            self.never_breaks(),
        ensures
            self.next().0.sound(),
            self.next().0.never_breaks(),
            self.next().1 matches Some(token) ==> spells_source(self.text, token),
        decreases self.unread(),
    {
        if self.pending is Some {
            let after = self.cleared();
            assert(after.cleared() == after);
            assert(self.next().0 == after);
            assert(spells_at(self.text, self.pending->0, 0));
        } else if self.at_end() {
            self.lemma_finalizer_name();
            let token = self.finalizer().1;
            if token is Some {
                if token->0.kind is Name {
                    assert(spells_at(self.text, token->0, (self.pos - token->0.length) as nat));
                } else {
                    assert(spells_at(self.text, token->0, 0));
                }
            }
        } else {
            assert(self.cleared() == self);
            self.lemma_step_name();
            self.lemma_step_wf();
            self.lemma_step_reads();
            let token = self.step().1;
            if token is Some {
                if token->0.kind is Name {
                    assert(spells_at(self.text, token->0, (self.pos - token->0.length) as nat));
                } else {
                    assert(spells_at(self.text, token->0, 0));
                }
            } else {
                self.step().0.lemma_next_name();
            }
        }
    }

    /// In a run that breaks no name, every name to come spells the stretch
    /// of the text at which it stands.
    pub proof fn lemma_names_from(self)
        requires
            self.wf(),
            self.sound(),
            self.never_breaks(),
        ensures
            forall|i: int|
                0 <= i < self.tokens().len() ==> spells_source(
                    self.text,
                    #[trigger] self.tokens()[i],
                ),
        decreases self.fuel(),
    {
        self.lemma_next_name();
        match self.next().1 {
            Some(token) => {
                self.lemma_next_burns();
                self.lemma_next_wf();
                self.lemma_next_text();
                let after = self.next().0;
                after.lemma_names_from();
                let run = self.tokens();
                let rest = after.tokens();
                assert(run =~= seq![token] + rest);
                assert forall|i: int| 0 <= i < run.len() implies spells_source(
                    self.text,
                    #[trigger] run[i],
                ) by {
                    if i > 0 {
                        assert(run[i] == rest[i - 1]);
                    }
                }
            },
            None => {},
        }
    }

    /// A pull leaves the text as it is.
    pub proof fn lemma_next_text(self)
        ensures
            self.next().0.text == self.text,
        decreases self.unread(),
    {
        if self.pending is None && !self.at_end() {
            self.lemma_step_reads();
            if self.step().1 is None {
                self.step().0.lemma_next_text();
            }
        }
    }
}

/// Name reconstruction: in the run of tokens of a text, the parts of
/// every name, one after the other, spell exactly the stretch of the text
/// at which the name stands. Left out are the texts in which a name loses
/// a character for good: an operator's first character begins a name
/// because the character read after it does not complete the operator, and
/// what comes next is no ordinary text that would cover that character,
/// but a marker, a blank, a comment, the end of the line or of the text.
pub proof fn lemma_name_reconstruction(text: Seq<char>)
    requires
        text.len() <= usize::MAX,
        Machine::start(text).never_breaks(),
    ensures
        forall|i: int|
            0 <= i < Machine::start(text).tokens().len() ==> spells_source(
                text,
                #[trigger] Machine::start(text).tokens()[i],
            ),
{
    Machine::start(text).lemma_names_from();
}

/// Whether the parts of a name are as the tokenizer makes them: at least
/// one, no run of text empty, and no run of text directly after another.
pub open spec fn merged(parts: Seq<NamePart<Seq<char>>>) -> bool {
    &&& parts.len() > 0
    &&& forall|i: int|
        0 <= i < parts.len() ==> (#[trigger] parts[i] matches NamePart::Ident(text) ==> text.len()
            > 0)
    &&& forall|i: int|
        0 < i < parts.len() ==> !(parts[i - 1] is Ident && #[trigger] parts[i] is Ident)
}

/// Whether a token is as wide as its kind asks, and carries what its kind
/// asks: an indentation change that is not zero, or parts that are merged.
pub open spec fn well_shaped(token: TokenView) -> bool {
    match token.kind {
        KindView::Indent(depth) => depth > 0 && token.length == depth,
        KindView::DeIndent(depth) => depth > 0 && token.length == depth,
        KindView::Newline => token.length == 1,
        KindView::Move(kind) => token.length == move_width(kind),
        KindView::Name(parts) => merged(parts) && token.length == name_text(parts).len(),
    }
}

impl Machine {
    /// The name that is being accumulated has merged parts.
    pub proof fn lemma_flushed_shaped(self)
        requires
            self.wf(),
            self.mode is PartialName,
        ensures
            well_shaped(self.flushed()),
    {
        let parts = self.mode->parts;
        let texts = resolve(self.text, parts);
        assert forall|i: int| 0 <= i < texts.len() implies (#[trigger] texts[i] matches NamePart::Ident(
            text,
        ) ==> text.len() > 0) by {
            assert(texts[i] == resolve_part(self.text, parts[i]));
        }
        assert forall|i: int| 0 < i < texts.len() implies !(texts[i - 1] is Ident
            && #[trigger] texts[i] is Ident) by {
            assert(texts[i] == resolve_part(self.text, parts[i]));
            assert(texts[i - 1] == resolve_part(self.text, parts[i - 1]));
        }
    }

    /// A pull gives a well-shaped token.
    pub proof fn lemma_next_shaped(self)
        requires
            self.wf(),
        ensures
            self.next().1 matches Some(token) ==> well_shaped(token),
        decreases self.unread(),
    {
        if self.pending is Some {
        } else {
            if self.mode is PartialName {
                self.lemma_flushed_shaped();
            }
            if !self.at_end() {
                if self.step().1 is None {
                    self.lemma_step_wf();
                    self.lemma_step_reads();
                    self.step().0.lemma_next_shaped();
                }
            }
        }
    }

    /// Every token to come is well shaped.
    pub proof fn lemma_shaped_from(self)
        requires
            self.wf(),
        ensures
            forall|i: int| 0 <= i < self.tokens().len() ==> well_shaped(#[trigger] self.tokens()[i]),
        decreases self.fuel(),
    {
        self.lemma_next_shaped();
        match self.next().1 {
            Some(token) => {
                self.lemma_next_burns();
                self.lemma_next_wf();
                let after = self.next().0;
                after.lemma_shaped_from();
                let run = self.tokens();
                let rest = after.tokens();
                assert(run =~= seq![token] + rest);
                assert forall|i: int| 0 <= i < run.len() implies well_shaped(#[trigger] run[i]) by {
                    if i > 0 {
                        assert(run[i] == rest[i - 1]);
                    }
                }
            },
            None => {},
        }
    }
}

/// In the run of tokens of any text, every token is as wide as its kind
/// asks, no indentation change is zero, and in every name no run of text
/// follows another directly.
pub proof fn lemma_tokens_well_shaped(text: Seq<char>)
    requires
        text.len() <= usize::MAX,
    ensures
        forall|i: int|
            0 <= i < Machine::start(text).tokens().len() ==> well_shaped(
                #[trigger] Machine::start(text).tokens()[i],
            ),
{
    Machine::start(text).lemma_shaped_from();
}

} // verus!
