//! Lexeme parser: turns a stream of decoded text chunks into lexemes.
//!
//! The parser is a state machine that keeps its state across chunk
//! boundaries. At the end of every chunk the pending word text is handed out
//! as a `WordPart`, but the word stays open: the next chunk may continue it.

use vstd::prelude::*;
use crate::lexeme_transfer::{LexemeTransfer, LexemeView, lexeme_views};
use crate::text::{char_to_lowercase, chars_of, is_ascii_digit_char, is_digit,
    is_whitespace_char, is_ws, lemma_lower_chars_append, lower_chars, spec_char_to_lowercase,
    string_from_chars};

verus! {

/// The predefined punctuation set.
pub open spec fn is_punct(c: char) -> bool {
    c == '.' || c == ',' || c == ';' || c == ':' || c == '?' || c == '!' || c == '#' || c == '/'
        || c == '\'' || c == '@' || c == '-'
}

/// Returns whether `c` belongs to the punctuation set.
pub fn is_punctuation(c: char) -> (b: bool)
    ensures
        b == is_punct(c),
{
    c == '.' || c == ',' || c == ';' || c == ':' || c == '?' || c == '!' || c == '#' || c == '/'
        || c == '\'' || c == '@' || c == '-'
}

/// The decimal value of a string of ASCII digits.
pub open spec fn digits_value(d: Seq<char>) -> nat
    decreases d.len(),
{
    if d.len() == 0 {
        0
    } else {
        digits_value(d.drop_last()) * 10 + ((d.last() as int) - ('0' as int)) as nat
    }
}

/// The count of an erase command `[digits]`, as `digits.parse::<u32>()` gives
/// it, with 0 where parsing fails (no digits, or a value beyond `u32::MAX`).
pub open spec fn erase_count(d: Seq<char>) -> u32 {
    if d.len() > 0 && digits_value(d) <= u32::MAX {
        digits_value(d) as u32
    } else {
        0
    }
}

/// Parsing mode of the lexer.
pub enum LexMode {
    /// Outside any word or service construct.
    Normal,
    /// Inside a word.
    InWord,
    /// After `[`, with the digits read so far.
    InErase(Seq<char>),
}

/// The lexer's state: its mode and the word text not yet handed out.
pub struct LexModel {
    pub mode: LexMode,
    pub buf: Seq<char>,
}

/// A pending word text as a `WordPart`, or nothing when it is empty.
pub open spec fn flush_part(buf: Seq<char>) -> Seq<LexemeView> {
    if buf.len() > 0 {
        seq![LexemeView::WordPart(buf)]
    } else {
        seq![]
    }
}

/// `WordEnd` when a word is open.
pub open spec fn close_word(mode: LexMode) -> Seq<LexemeView> {
    if mode is InWord {
        seq![LexemeView::WordEnd]
    } else {
        seq![]
    }
}

/// One character of input: the next state and the lexemes it emits. Word text
/// is kept raw here; the lexer lowercases it when it hands it out.
pub open spec fn lex_char(m: LexModel, c: char) -> (LexModel, Seq<LexemeView>) {
    match m.mode {
        LexMode::InErase(d) => if is_digit(c) {
            (LexModel { mode: LexMode::InErase(d.push(c)), buf: m.buf }, seq![])
        } else if c == ']' {
            (
                LexModel { mode: LexMode::Normal, buf: m.buf },
                seq![LexemeView::BackspaceCount(erase_count(d)), LexemeView::EraseEnd],
            )
        } else {
            (LexModel { mode: LexMode::Normal, buf: m.buf }, seq![])
        },
        _ => if c == '*' {
            (
                LexModel { mode: LexMode::Normal, buf: seq![] },
                flush_part(m.buf) + close_word(m.mode) + seq![LexemeView::Stabilization],
            )
        } else if c == '[' {
            (
                LexModel { mode: LexMode::InErase(seq![]), buf: seq![] },
                flush_part(m.buf) + close_word(m.mode) + seq![LexemeView::EraseStart],
            )
        } else if is_ws(c) {
            (
                LexModel { mode: LexMode::Normal, buf: seq![] },
                flush_part(m.buf) + close_word(m.mode) + seq![LexemeView::Whitespace(c)],
            )
        } else if is_punct(c) {
            (
                LexModel { mode: LexMode::Normal, buf: seq![] },
                flush_part(m.buf) + close_word(m.mode) + seq![LexemeView::Punctuation(c)],
            )
        } else {
            (
                LexModel { mode: LexMode::InWord, buf: m.buf.push(c) },
                if m.mode is Normal {
                    seq![LexemeView::WordStart]
                } else {
                    seq![]
                },
            )
        },
    }
}

/// A sequence of characters, first to last.
pub open spec fn lex_chars(m: LexModel, cs: Seq<char>) -> (LexModel, Seq<LexemeView>)
    decreases cs.len(),
{
    if cs.len() == 0 {
        (m, seq![])
    } else {
        let (m1, o1) = lex_chars(m, cs.drop_last());
        let (m2, o2) = lex_char(m1, cs.last());
        (m2, o1 + o2)
    }
}

/// A whole chunk: its characters, then the pending word text (the word stays open).
pub open spec fn lex_chunk(m: LexModel, cs: Seq<char>) -> (LexModel, Seq<LexemeView>) {
    let (m1, o1) = lex_chars(m, cs);
    (LexModel { mode: m1.mode, buf: seq![] }, o1 + flush_part(m1.buf))
}

/// End of input: an open word is handed out and closed.
pub open spec fn lex_finish(m: LexModel) -> Seq<LexemeView> {
    if m.mode is InWord {
        flush_part(m.buf) + seq![LexemeView::WordEnd]
    } else {
        seq![]
    }
}

/// The lexemes as handed out: word text lowercased character by character,
/// so that how a word is cut into pieces does not change its lowercase form.
pub open spec fn lower_view(l: LexemeView) -> LexemeView {
    match l {
        LexemeView::WordPart(s) => LexemeView::WordPart(lower_chars(s)),
        _ => l,
    }
}

pub open spec fn lower_views(s: Seq<LexemeView>) -> Seq<LexemeView> {
    s.map_values(|l: LexemeView| lower_view(l))
}

/// The initial state.
pub open spec fn initial_model() -> LexModel {
    LexModel { mode: LexMode::Normal, buf: seq![] }
}


/// A lexeme stream flattened to events, with word text spelled out character
/// by character, so that a word handed out in several parts reads the same as
/// one handed out whole.
pub enum LexEvent {
    Start,
    Letter(char),
    End,
    Space(char),
    Mark(char),
    EraseStart,
    Count(u32),
    EraseEnd,
    Stable,
    Activity,
}

pub open spec fn char_events(s: Seq<char>) -> Seq<LexEvent>
    decreases s.len(),
{
    if s.len() == 0 {
        seq![]
    } else {
        char_events(s.drop_last()).push(LexEvent::Letter(s.last()))
    }
}

pub open spec fn lexeme_events(l: LexemeView) -> Seq<LexEvent> {
    match l {
        LexemeView::WordStart => seq![LexEvent::Start],
        LexemeView::WordPart(s) => char_events(s),
        LexemeView::WordEnd => seq![LexEvent::End],
        LexemeView::Whitespace(c) => seq![LexEvent::Space(c)],
        LexemeView::Punctuation(c) => seq![LexEvent::Mark(c)],
        LexemeView::EraseStart => seq![LexEvent::EraseStart],
        LexemeView::BackspaceCount(n) => seq![LexEvent::Count(n)],
        LexemeView::EraseEnd => seq![LexEvent::EraseEnd],
        LexemeView::Stabilization => seq![LexEvent::Stable],
        LexemeView::UserActivityDetected => seq![LexEvent::Activity],
    }
}

pub open spec fn flatten(ls: Seq<LexemeView>) -> Seq<LexEvent>
    decreases ls.len(),
{
    if ls.len() == 0 {
        seq![]
    } else {
        flatten(ls.drop_last()) + lexeme_events(ls.last())
    }
}

pub(crate) proof fn lemma_flatten_append(a: Seq<LexemeView>, b: Seq<LexemeView>)
    ensures
        flatten(a + b) == flatten(a) + flatten(b),
    decreases b.len(),
{
    if b.len() == 0 {
        assert(a + b =~= a);
        assert(flatten(a) + flatten(b) =~= flatten(a));
    } else {
        lemma_flatten_append(a, b.drop_last());
        assert((a + b).drop_last() =~= a + b.drop_last());
        assert(flatten(a) + flatten(b.drop_last()) + lexeme_events(b.last()) =~= flatten(a) + (
        flatten(b.drop_last()) + lexeme_events(b.last())));
    }
}

/// One event with its character lowercased, if it is one of word text.
pub open spec fn lower_event(e: LexEvent) -> Seq<LexEvent> {
    match e {
        LexEvent::Letter(c) => char_events(spec_char_to_lowercase(c)),
        _ => seq![e],
    }
}

/// Events with every character of word text lowercased.
pub open spec fn lower_events(es: Seq<LexEvent>) -> Seq<LexEvent>
    decreases es.len(),
{
    if es.len() == 0 {
        seq![]
    } else {
        lower_events(es.drop_last()) + lower_event(es.last())
    }
}

proof fn lemma_lower_events_append(a: Seq<LexEvent>, b: Seq<LexEvent>)
    ensures
        lower_events(a + b) == lower_events(a) + lower_events(b),
    decreases b.len(),
{
    if b.len() == 0 {
        assert(a + b =~= a);
        assert(lower_events(a) + lower_events(b) =~= lower_events(a));
    } else {
        lemma_lower_events_append(a, b.drop_last());
        assert((a + b).drop_last() =~= a + b.drop_last());
        assert((a + b).last() == b.last());
        let t = lower_event(b.last());
        assert(lower_events(a) + lower_events(b.drop_last()) + t =~= lower_events(a) + (
        lower_events(b.drop_last()) + t));
    }
}

proof fn lemma_push_after_append<T>(a: Seq<T>, b: Seq<T>, e: T)
    ensures
        (a + b).push(e) == a + b.push(e),
        b.push(e).drop_last() == b,
        b.push(e).last() == e,
        b.push(e).len() == b.len() + 1,
{
    assert((a + b).push(e) =~= a + b.push(e));
    assert(b.push(e).drop_last() =~= b);
}

/// A non-empty sequence is its front with its last element pushed back.
proof fn lemma_front_push<T>(b: Seq<T>, l: T)
    requires
        b.len() > 0,
        l == b.last(),
    ensures
        b == b.drop_last().push(l),
{
    assert(b =~= b.drop_last().push(l));
}

proof fn lemma_char_events_push(bd: Seq<char>, l: char)
    ensures
        char_events(bd.push(l)) == char_events(bd).push(LexEvent::Letter(l)),
{
    assert(bd.push(l).drop_last() =~= bd);
}

proof fn lemma_char_events_append_step(a: Seq<char>, bd: Seq<char>, l: char)
    requires
        char_events(a + bd) == char_events(a) + char_events(bd),
    ensures
        char_events(a + bd.push(l)) == char_events(a) + char_events(bd.push(l)),
{
    assert(a + bd.push(l) =~= (a + bd).push(l));
    lemma_char_events_push(bd, l);
    lemma_char_events_push(a + bd, l);
    lemma_push_after_append(char_events(a), char_events(bd), LexEvent::Letter(l));
}

proof fn lemma_char_events_append(a: Seq<char>, b: Seq<char>)
    ensures
        char_events(a + b) == char_events(a) + char_events(b),
    decreases b.len(),
{
    if b.len() == 0 {
        assert(a + b =~= a);
        assert(char_events(b) =~= Seq::<LexEvent>::empty());
        assert(char_events(a) + char_events(b) =~= char_events(a));
    } else {
        lemma_char_events_append(a, b.drop_last());
        lemma_char_events_append_step(a, b.drop_last(), b.last());
        lemma_front_push(b, b.last());
    }
}

proof fn lemma_char_events_lower_step(init: Seq<char>, l: char)
    requires
        char_events(lower_chars(init)) == lower_events(char_events(init)),
    ensures
        char_events(lower_chars(init.push(l))) == lower_events(char_events(init.push(l))),
{
    let s = init.push(l);
    assert(s.drop_last() =~= init);
    assert(lower_chars(s) == lower_chars(init) + spec_char_to_lowercase(l));
    lemma_char_events_append(lower_chars(init), spec_char_to_lowercase(l));
    lemma_char_events_push(init, l);
    let e = LexEvent::Letter(l);
    let ce0 = char_events(init);
    lemma_push_after_append(ce0, ce0, e);
    let x = ce0.push(e);
    assert(lower_event(e) == char_events(spec_char_to_lowercase(l)));
    assert(lower_events(x) == lower_events(x.drop_last()) + lower_event(x.last()));
}

proof fn lemma_char_events_lower(s: Seq<char>)
    ensures
        char_events(lower_chars(s)) == lower_events(char_events(s)),
    decreases s.len(),
{
    if s.len() == 0 {
        assert(lower_chars(s) =~= Seq::<char>::empty());
        assert(char_events(lower_chars(s)) =~= Seq::<LexEvent>::empty());
        assert(char_events(s) =~= Seq::<LexEvent>::empty());
    } else {
        lemma_char_events_lower(s.drop_last());
        lemma_char_events_lower_step(s.drop_last(), s.last());
        lemma_front_push(s, s.last());
    }
}

proof fn lemma_lexeme_events_lower(l: LexemeView)
    ensures
        lexeme_events(lower_view(l)) == lower_events(lexeme_events(l)),
{
    match l {
        LexemeView::WordPart(s) => {
            lemma_char_events_lower(s);
        },
        _ => {
            let es = lexeme_events(l);
            assert(es.len() == 1);
            assert(es.drop_last() =~= Seq::<LexEvent>::empty());
            assert(!(es.last() is Letter));
            let e0: Seq<LexEvent> = Seq::empty();
            assert(lower_events(e0) == e0);
            assert(lower_events(es) == lower_events(e0) + seq![es.last()]);
            assert(lower_events(es) =~= es);
        },
    }
}

/// Lowercasing the lexemes lowercases their events.
pub(crate) proof fn lemma_flatten_lower(x: Seq<LexemeView>)
    ensures
        flatten(lower_views(x)) == lower_events(flatten(x)),
    decreases x.len(),
{
    if x.len() == 0 {
        assert(lower_views(x) =~= Seq::<LexemeView>::empty());
    } else {
        let init = x.drop_last();
        lemma_flatten_lower(init);
        assert(lower_views(x).drop_last() =~= lower_views(init));
        assert(lower_views(x).last() == lower_view(x.last()));
        lemma_lexeme_events_lower(x.last());
        lemma_lower_events_append(flatten(init), lexeme_events(x.last()));
    }
}

proof fn lemma_flatten_flush(buf: Seq<char>)
    ensures
        flatten(flush_part(buf)) == char_events(buf),
{
    assert(flatten(Seq::<LexemeView>::empty()) =~= Seq::<LexEvent>::empty());
    if buf.len() > 0 {
        assert(flush_part(buf).drop_last() =~= Seq::<LexemeView>::empty());
        assert(flatten(flush_part(buf)) =~= Seq::<LexEvent>::empty() + char_events(buf));
    } else {
        assert(char_events(buf) =~= Seq::<LexEvent>::empty());
    }
}

proof fn lemma_lex_chars_append(m: LexModel, a: Seq<char>, b: Seq<char>)
    ensures
        lex_chars(m, a + b).0 == lex_chars(lex_chars(m, a).0, b).0,
        lex_chars(m, a + b).1 == lex_chars(m, a).1 + lex_chars(lex_chars(m, a).0, b).1,
    decreases b.len(),
{
    if b.len() == 0 {
        assert(a + b =~= a);
        assert(lex_chars(m, a).1 + Seq::<LexemeView>::empty() =~= lex_chars(m, a).1);
    } else {
        lemma_lex_chars_append(m, a, b.drop_last());
        assert((a + b).drop_last() =~= a + b.drop_last());
        assert((a + b).last() == b.last());
        let p = lex_chars(lex_chars(m, a).0, b.drop_last());
        let q = lex_char(p.0, b.last());
        assert(lex_chars(m, a).1 + p.1 + q.1 =~= lex_chars(m, a).1 + (p.1 + q.1));
    }
}

/// A state is reachable-shaped when only an open word holds pending text.
pub open spec fn lex_model_ok(m: LexModel) -> bool {
    m.mode is InWord || m.buf.len() == 0
}

proof fn lemma_lex_chars_ok(m: LexModel, cs: Seq<char>)
    requires
        lex_model_ok(m),
    ensures
        lex_model_ok(lex_chars(m, cs).0),
    decreases cs.len(),
{
    if cs.len() > 0 {
        lemma_lex_chars_ok(m, cs.drop_last());
    }
}

proof fn lemma_step_pending(m: LexModel, c: char)
    requires
        lex_model_ok(m),
    ensures
        ({
            let m0 = LexModel { mode: m.mode, buf: seq![] };
            let x = lex_char(m, c);
            let y = lex_char(m0, c);
            &&& x.0.mode == y.0.mode
            &&& lex_model_ok(x.0)
            &&& flatten(x.1) + char_events(x.0.buf) == char_events(m.buf) + (flatten(y.1)
                + char_events(y.0.buf))
        }),
{
    let m0 = LexModel { mode: m.mode, buf: seq![] };
    let x = lex_char(m, c);
    let y = lex_char(m0, c);
    assert(char_events(Seq::<char>::empty()) =~= Seq::<LexEvent>::empty());
    match m.mode {
        LexMode::InErase(d) => {
            assert(m.buf.len() == 0);
            assert(m.buf =~= Seq::<char>::empty());
        },
        _ => {
            if c == '*' || c == '[' || is_ws(c) || is_punct(c) {
                let tail = x.1.skip(x.1.len() - 1);
                let cw = close_word(m.mode);
                assert(x.1 =~= flush_part(m.buf) + cw + tail);
                assert(y.1 =~= flush_part(m0.buf) + cw + tail);
                lemma_flatten_append(flush_part(m.buf) + cw, tail);
                lemma_flatten_append(flush_part(m.buf), cw);
                lemma_flatten_append(flush_part(m0.buf) + cw, tail);
                lemma_flatten_append(flush_part(m0.buf), cw);
                lemma_flatten_flush(m.buf);
                lemma_flatten_flush(m0.buf);
                assert(flatten(x.1) + char_events(x.0.buf) =~= char_events(m.buf) + (flatten(y.1)
                    + char_events(y.0.buf)));
            } else if m.mode is Normal {
                assert(m.buf =~= Seq::<char>::empty());
            } else {
                assert(x.1 =~= Seq::<LexemeView>::empty());
                assert(y.1 =~= Seq::<LexemeView>::empty());
                assert(flatten(Seq::<LexemeView>::empty()) =~= Seq::<LexEvent>::empty());
                assert(m.buf.push(c).drop_last() =~= m.buf);
                assert(m0.buf.push(c).drop_last() =~= m0.buf);
                assert(flatten(x.1) + char_events(x.0.buf) =~= char_events(m.buf) + (flatten(y.1)
                    + char_events(y.0.buf)));
            }
        },
    }
}

/// Pending text at the start only shifts where word text comes out, never
/// what comes out.
#[verifier::rlimit(60)]
#[verifier::spinoff_prover]
proof fn lemma_pending_text(md: LexMode, buf: Seq<char>, cs: Seq<char>)
    requires
        lex_model_ok(LexModel { mode: md, buf }),
    ensures
        ({
            let x = lex_chars(LexModel { mode: md, buf }, cs);
            let y = lex_chars(LexModel { mode: md, buf: seq![] }, cs);
            &&& x.0.mode == y.0.mode
            &&& lex_model_ok(x.0)
            &&& lex_model_ok(y.0)
            &&& flatten(x.1) + char_events(x.0.buf) == char_events(buf) + flatten(y.1)
                + char_events(y.0.buf)
        }),
    decreases cs.len(),
{
    let mx = LexModel { mode: md, buf };
    let my = LexModel { mode: md, buf: seq![] };
    assert(flatten(Seq::<LexemeView>::empty()) =~= Seq::<LexEvent>::empty());
    assert(char_events(Seq::<char>::empty()) =~= Seq::<LexEvent>::empty());
    if cs.len() == 0 {
        assert(flatten(lex_chars(mx, cs).1) + char_events(buf) =~= char_events(buf) + flatten(
            lex_chars(my, cs).1,
        ) + char_events(Seq::<char>::empty()));
    } else {
        lemma_pending_text(md, buf, cs.drop_last());
        let x1 = lex_chars(mx, cs.drop_last());
        let y1 = lex_chars(my, cs.drop_last());
        let c = cs.last();
        let x2 = lex_char(x1.0, c);
        let y2 = lex_char(y1.0, c);
        lemma_flatten_append(x1.1, x2.1);
        lemma_flatten_append(y1.1, y2.1);
        lemma_step_pending(x1.0, c);
        lemma_step_pending(y1.0, c);
        let s = flatten(lex_char(LexModel { mode: x1.0.mode, buf: seq![] }, c).1) + char_events(
            lex_char(LexModel { mode: x1.0.mode, buf: seq![] }, c).0.buf,
        );
        let ex = flatten(x1.1);
        let ey = flatten(y1.1);
        assert(flatten(x1.1 + x2.1) + char_events(x2.0.buf) =~= ex + (flatten(x2.1) + char_events(
            x2.0.buf)));
        assert(flatten(y1.1 + y2.1) + char_events(y2.0.buf) =~= ey + (flatten(y2.1) + char_events(
            y2.0.buf)));
        assert(flatten(x1.1 + x2.1) + char_events(x2.0.buf) =~= (ex + char_events(x1.0.buf)) + s);
        assert(char_events(buf) + flatten(y1.1 + y2.1) + char_events(y2.0.buf) =~= (char_events(buf)
            + ey + char_events(y1.0.buf)) + s);
    }
}

/// Chunk boundaries do not change what the lexer says: feeding `a` and then
/// `b` as two chunks yields, word text spelled out, the same events and the
/// same state as feeding `a + b` as one chunk.
pub proof fn law_chunk_boundaries(m: LexModel, a: Seq<char>, b: Seq<char>)
    requires
        m.buf.len() == 0,
    ensures
        lex_chunk(lex_chunk(m, a).0, b).0 == lex_chunk(m, a + b).0,
        flatten(lex_chunk(m, a).1 + lex_chunk(lex_chunk(m, a).0, b).1) == flatten(
            lex_chunk(m, a + b).1,
        ),
{
    lemma_lex_chars_append(m, a, b);
    let (ma, oa) = lex_chars(m, a);
    lemma_lex_chars_ok(m, a);
    let (mab, ob) = lex_chars(ma, b);
    let m1 = LexModel { mode: ma.mode, buf: seq![] };
    let (mb, ob2) = lex_chars(m1, b);
    lemma_pending_text(ma.mode, ma.buf, b);
    let o1 = oa + flush_part(ma.buf);
    let o2 = ob2 + flush_part(mb.buf);
    let o3 = oa + ob + flush_part(mab.buf);
    lemma_flatten_append(o1, o2);
    lemma_flatten_append(oa, flush_part(ma.buf));
    lemma_flatten_append(ob2, flush_part(mb.buf));
    lemma_flatten_append(oa + ob, flush_part(mab.buf));
    lemma_flatten_append(oa, ob);
    lemma_flatten_flush(ma.buf);
    lemma_flatten_flush(mb.buf);
    lemma_flatten_flush(mab.buf);
    assert(flatten(o1 + o2) == flatten(oa) + char_events(ma.buf) + (flatten(ob2) + char_events(
        mb.buf)));
    assert(flatten(o3) == flatten(oa) + flatten(ob) + char_events(mab.buf));
    assert(flatten(ob) + char_events(mab.buf) == char_events(ma.buf) + flatten(ob2) + char_events(
        mb.buf));
    assert(flatten(o3) =~= flatten(oa) + (flatten(ob) + char_events(mab.buf)));
    assert(flatten(o1 + o2) =~= flatten(oa) + (char_events(ma.buf) + flatten(ob2) + char_events(
        mb.buf)));
}

/// The word state after one lexeme, from inside a word (`true`) or outside
/// one: a word starts outside a word, its parts and its end come inside it,
/// every other lexeme comes outside any word; `None` where the lexeme cannot
/// come.
pub open spec fn word_step(in_word: bool, l: LexemeView) -> Option<bool> {
    match l {
        LexemeView::WordStart => if in_word {
            None
        } else {
            Some(true)
        },
        LexemeView::WordPart(_) => if in_word {
            Some(true)
        } else {
            None
        },
        LexemeView::WordEnd => if in_word {
            Some(false)
        } else {
            None
        },
        _ => if in_word {
            None
        } else {
            Some(false)
        },
    }
}

/// The word state after a sequence of lexemes, `None` where one of them
/// comes where it cannot.
pub open spec fn word_nesting(in_word: bool, ls: Seq<LexemeView>) -> Option<bool>
    decreases ls.len(),
{
    if ls.len() == 0 {
        Some(in_word)
    } else {
        match word_nesting(in_word, ls.drop_last()) {
            Some(b) => word_step(b, ls.last()),
            None => None,
        }
    }
}

pub(crate) proof fn lemma_nesting_append(b: bool, x: Seq<LexemeView>, y: Seq<LexemeView>)
    ensures
        word_nesting(b, x + y) == match word_nesting(b, x) {
            Some(b2) => word_nesting(b2, y),
            None => None,
        },
    decreases y.len(),
{
    if y.len() == 0 {
        assert(x + y =~= x);
    } else {
        lemma_nesting_append(b, x, y.drop_last());
        assert((x + y).drop_last() =~= x + y.drop_last());
        assert((x + y).last() == y.last());
    }
}

proof fn lemma_nesting_one(b: bool, l: LexemeView)
    ensures
        word_nesting(b, seq![l]) == word_step(b, l),
{
    let s = seq![l];
    assert(s.len() == 1);
    assert(s.last() == l);
    assert(s.drop_last() =~= Seq::<LexemeView>::empty());
    assert(word_nesting(b, s.drop_last()) == Some(b));
}

proof fn lemma_nesting_empty(b: bool)
    ensures
        word_nesting(b, Seq::<LexemeView>::empty()) == Some(b),
{
}

proof fn lemma_nesting_flush(m: LexModel)
    requires
        lex_model_ok(m),
    ensures
        word_nesting(m.mode is InWord, flush_part(m.buf)) == Some(m.mode is InWord),
        word_nesting(m.mode is InWord, flush_part(m.buf) + close_word(m.mode)) == Some(false),
{
    if m.buf.len() > 0 {
        lemma_nesting_one(true, LexemeView::WordPart(m.buf));
    }
    lemma_nesting_append(m.mode is InWord, flush_part(m.buf), close_word(m.mode));
    if m.mode is InWord {
        lemma_nesting_one(true, LexemeView::WordEnd);
    }
}

proof fn lemma_nesting_char(m: LexModel, c: char)
    requires
        lex_model_ok(m),
    ensures
        word_nesting(m.mode is InWord, lex_char(m, c).1) == Some(lex_char(m, c).0.mode is InWord),
{
    let out = lex_char(m, c).1;
    match m.mode {
        LexMode::InErase(d) => {
            if c == ']' {
                lemma_nesting_one(false, LexemeView::BackspaceCount(erase_count(d)));
                lemma_nesting_append(
                    false,
                    seq![LexemeView::BackspaceCount(erase_count(d))],
                    seq![LexemeView::EraseEnd],
                );
                assert(out =~= seq![LexemeView::BackspaceCount(erase_count(d))] + seq![
                    LexemeView::EraseEnd,
                ]);
                lemma_nesting_one(false, LexemeView::EraseEnd);
            }
        },
        _ => {
            if c == '*' || c == '[' || is_ws(c) || is_punct(c) {
                let head = flush_part(m.buf) + close_word(m.mode);
                let x = out.last();
                assert(out =~= head + seq![x]);
                lemma_nesting_flush(m);
                lemma_nesting_append(m.mode is InWord, head, seq![x]);
                lemma_nesting_one(false, x);
            } else if m.mode is Normal {
                lemma_nesting_one(false, LexemeView::WordStart);
            }
        },
    }
}

proof fn lemma_nesting_chars(m: LexModel, cs: Seq<char>)
    requires
        lex_model_ok(m),
    ensures
        word_nesting(m.mode is InWord, lex_chars(m, cs).1) == Some(lex_chars(m, cs).0.mode is InWord),
    decreases cs.len(),
{
    if cs.len() > 0 {
        lemma_nesting_chars(m, cs.drop_last());
        lemma_lex_chars_ok(m, cs.drop_last());
        let (m1, o1) = lex_chars(m, cs.drop_last());
        lemma_nesting_char(m1, cs.last());
        lemma_nesting_append(m.mode is InWord, o1, lex_char(m1, cs.last()).1);
    }
}

/// A chunk leaves the word state as the lexer's mode says: inside a word
/// exactly when the mode is.
pub(crate) proof fn lemma_nesting_chunk(m: LexModel, cs: Seq<char>)
    requires
        lex_model_ok(m),
    ensures
        word_nesting(m.mode is InWord, lex_chunk(m, cs).1) == Some(lex_chunk(m, cs).0.mode is InWord),
        lex_model_ok(lex_chunk(m, cs).0),
{
    lemma_nesting_chars(m, cs);
    lemma_lex_chars_ok(m, cs);
    let (m1, o1) = lex_chars(m, cs);
    lemma_nesting_flush(m1);
    lemma_nesting_append(m.mode is InWord, o1, flush_part(m1.buf));
}

/// The end of the input closes an open word.
pub(crate) proof fn lemma_nesting_finish(m: LexModel)
    requires
        lex_model_ok(m),
    ensures
        word_nesting(m.mode is InWord, lex_finish(m)) == Some(false),
{
    if m.mode is InWord {
        lemma_nesting_flush(m);
        lemma_nesting_append(true, flush_part(m.buf), seq![LexemeView::WordEnd]);
        lemma_nesting_one(true, LexemeView::WordEnd);
    }
}

/// Lowercasing word text does not change where words start and end.
pub(crate) proof fn lemma_nesting_lower(b: bool, ls: Seq<LexemeView>)
    ensures
        word_nesting(b, lower_views(ls)) == word_nesting(b, ls),
    decreases ls.len(),
{
    if ls.len() > 0 {
        lemma_nesting_lower(b, ls.drop_last());
        assert(lower_views(ls).drop_last() =~= lower_views(ls.drop_last()));
        assert(lower_views(ls).last() == lower_view(ls.last()));
    }
}

/// No lexeme of `ls` reports user activity: the keyboard stream alone.
pub open spec fn keyboard_only(ls: Seq<LexemeView>) -> bool {
    forall|i: int| 0 <= i < ls.len() ==> !(#[trigger] ls[i] is UserActivityDetected)
}

proof fn lemma_keyboard_concat(a: Seq<LexemeView>, b: Seq<LexemeView>)
    requires
        keyboard_only(a),
        keyboard_only(b),
    ensures
        keyboard_only(a + b),
{
    assert forall|i: int| 0 <= i < (a + b).len() implies !(#[trigger] (a + b)[i] is UserActivityDetected) by {
        if i < a.len() {
            assert((a + b)[i] == a[i]);
        } else {
            assert((a + b)[i] == b[i - a.len()]);
        }
    }
}

proof fn lemma_lex_char_keyboard(m: LexModel, c: char)
    ensures
        keyboard_only(lex_char(m, c).1),
{
    let fp = flush_part(m.buf);
    let cw = close_word(m.mode);
    assert(keyboard_only(fp));
    assert(keyboard_only(cw));
    lemma_keyboard_concat(fp, cw);
    match m.mode {
        LexMode::InErase(d) => {
            let o = lex_char(m, c).1;
            assert(keyboard_only(o));
        },
        _ => {
            if c == '*' {
                lemma_keyboard_concat(fp + cw, seq![LexemeView::Stabilization]);
            } else if c == '[' {
                lemma_keyboard_concat(fp + cw, seq![LexemeView::EraseStart]);
            } else if is_ws(c) {
                lemma_keyboard_concat(fp + cw, seq![LexemeView::Whitespace(c)]);
            } else if is_punct(c) {
                lemma_keyboard_concat(fp + cw, seq![LexemeView::Punctuation(c)]);
            }
        },
    }
}

/// Whatever the characters, the lexer never reports user activity.
pub proof fn lemma_lex_chars_keyboard(m: LexModel, cs: Seq<char>)
    ensures
        keyboard_only(lex_chars(m, cs).1),
        keyboard_only(lex_chunk(m, cs).1),
        keyboard_only(lex_finish(m)),
    decreases cs.len(),
{
    if cs.len() > 0 {
        lemma_lex_chars_keyboard(m, cs.drop_last());
        let p = lex_chars(m, cs.drop_last());
        lemma_lex_char_keyboard(p.0, cs.last());
        lemma_keyboard_concat(p.1, lex_char(p.0, cs.last()).1);
    }
    let q = lex_chars(m, cs);
    assert(keyboard_only(flush_part(q.0.buf)));
    lemma_keyboard_concat(q.1, flush_part(q.0.buf));
    assert(keyboard_only(flush_part(m.buf)));
    lemma_keyboard_concat(flush_part(m.buf), seq![LexemeView::WordEnd]);
}

/// Lowercasing word text leaves every other lexeme as it is.
pub proof fn lemma_lower_keyboard(ls: Seq<LexemeView>)
    requires
        keyboard_only(ls),
    ensures
        keyboard_only(lower_views(ls)),
{
    assert forall|i: int| 0 <= i < lower_views(ls).len() implies !(
    #[trigger] lower_views(ls)[i] is UserActivityDetected) by {
        assert(lower_views(ls)[i] == lower_view(ls[i]));
        assert(!(ls[i] is UserActivityDetected));
    }
}

/// The text the significant lexemes carry: word text, whitespace and
/// punctuation, in order.
pub open spec fn text_of(ls: Seq<LexemeView>) -> Seq<char>
    decreases ls.len(),
{
    if ls.len() == 0 {
        seq![]
    } else {
        text_of(ls.drop_last()) + match ls.last() {
            LexemeView::WordPart(t) => t,
            LexemeView::Whitespace(c) => seq![c],
            LexemeView::Punctuation(c) => seq![c],
            _ => seq![],
        }
    }
}

proof fn lemma_text_of_append(a: Seq<LexemeView>, b: Seq<LexemeView>)
    ensures
        text_of(a + b) == text_of(a) + text_of(b),
    decreases b.len(),
{
    if b.len() == 0 {
        assert(a + b =~= a);
        assert(text_of(a) + text_of(b) =~= text_of(a));
    } else {
        lemma_text_of_append(a, b.drop_last());
        assert((a + b).drop_last() =~= a + b.drop_last());
        let t = match b.last() {
            LexemeView::WordPart(t) => t,
            LexemeView::Whitespace(c) => seq![c],
            LexemeView::Punctuation(c) => seq![c],
            _ => seq![],
        };
        assert(text_of(a) + text_of(b.drop_last()) + t =~= text_of(a) + (text_of(b.drop_last()) + t));
    }
}

proof fn lemma_text_of_single(l: LexemeView)
    ensures
        text_of(seq![l]) == match l {
            LexemeView::WordPart(t) => t,
            LexemeView::Whitespace(c) => seq![c],
            LexemeView::Punctuation(c) => seq![c],
            _ => seq![],
        },
{
    assert(seq![l].drop_last() =~= Seq::<LexemeView>::empty());
    assert(text_of(Seq::<LexemeView>::empty()) == Seq::<char>::empty());
    let t = match l {
        LexemeView::WordPart(t) => t,
        LexemeView::Whitespace(c) => seq![c],
        LexemeView::Punctuation(c) => seq![c],
        _ => seq![],
    };
    assert(Seq::<char>::empty() + t =~= t);
}

/// No erase command or stabilization mark in `cs`.
pub open spec fn plain_text(cs: Seq<char>) -> bool {
    forall|i: int| 0 <= i < cs.len() ==> #[trigger] cs[i] != '[' && cs[i] != '*'
}

proof fn lemma_keeps_text(m: LexModel, cs: Seq<char>)
    requires
        !(m.mode is InErase),
        plain_text(cs),
    ensures
        !(lex_chars(m, cs).0.mode is InErase),
        text_of(lex_chars(m, cs).1) + lex_chars(m, cs).0.buf == m.buf + cs,
    decreases cs.len(),
{
    assert(text_of(Seq::<LexemeView>::empty()) == Seq::<char>::empty());
    if cs.len() == 0 {
        assert(m.buf + cs =~= m.buf);
        assert(Seq::<char>::empty() + m.buf =~= m.buf);
    } else {
        let init = cs.drop_last();
        assert(plain_text(init)) by {
            assert forall|i: int| 0 <= i < init.len() implies #[trigger] init[i] != '[' && init[i] != '*' by {
                assert(init[i] == cs[i]);
            }
        }
        lemma_keeps_text(m, init);
        let (m1, o1) = lex_chars(m, init);
        let c = cs.last();
        assert(c == cs[cs.len() - 1]);
        let (m2, o2) = lex_char(m1, c);
        lemma_text_of_append(o1, o2);
        let fp = flush_part(m1.buf);
        let cw = close_word(m1.mode);
        assert(text_of(fp) == m1.buf) by {
            if m1.buf.len() > 0 {
                lemma_text_of_single(LexemeView::WordPart(m1.buf));
            } else {
                assert(fp =~= Seq::<LexemeView>::empty());
                assert(m1.buf =~= Seq::<char>::empty());
            }
        }
        assert(text_of(cw) == Seq::<char>::empty()) by {
            if m1.mode is InWord {
                lemma_text_of_single(LexemeView::WordEnd);
            } else {
                assert(cw =~= Seq::<LexemeView>::empty());
            }
        }
        lemma_text_of_append(fp, cw);
        assert(c != '[' && c != '*');
        assert(cs =~= init + seq![c]);
        assert(text_of(o1) + m1.buf == m.buf + init);
        if is_ws(c) {
            assert(o2 == fp + cw + seq![LexemeView::Whitespace(c)]);
            lemma_text_of_append(fp + cw, seq![LexemeView::Whitespace(c)]);
            lemma_text_of_single(LexemeView::Whitespace(c));
            assert(text_of(o2) =~= m1.buf + seq![c]);
            assert(m2.buf =~= Seq::<char>::empty());
            assert(text_of(o1) + text_of(o2) + m2.buf =~= (text_of(o1) + m1.buf) + seq![c]);
        } else if is_punct(c) {
            assert(o2 == fp + cw + seq![LexemeView::Punctuation(c)]);
            lemma_text_of_append(fp + cw, seq![LexemeView::Punctuation(c)]);
            lemma_text_of_single(LexemeView::Punctuation(c));
            assert(text_of(o2) =~= m1.buf + seq![c]);
            assert(m2.buf =~= Seq::<char>::empty());
            assert(text_of(o1) + text_of(o2) + m2.buf =~= (text_of(o1) + m1.buf) + seq![c]);
        } else {
            assert(m2.buf == m1.buf.push(c));
            if m1.mode is Normal {
                assert(o2 == seq![LexemeView::WordStart]);
                lemma_text_of_single(LexemeView::WordStart);
            } else {
                assert(o2 =~= Seq::<LexemeView>::empty());
            }
            assert(text_of(o2) =~= Seq::<char>::empty());
            assert(text_of(o1) + text_of(o2) + m2.buf =~= (text_of(o1) + m1.buf) + seq![c]);
        }
        assert(lex_chars(m, cs) == (m2, o1 + o2));
    }
}

/// The lexer loses and reorders nothing: for a chunk with no erase command
/// and no stabilization mark, the text of the lexemes it yields (word text as
/// read, before lowercasing) is the chunk itself.
pub proof fn law_plain_text_is_kept(cs: Seq<char>)
    requires
        plain_text(cs),
    ensures
        text_of(lex_chunk(initial_model(), cs).1) == cs,
{
    let m = initial_model();
    lemma_keeps_text(m, cs);
    let (m1, o1) = lex_chars(m, cs);
    lemma_text_of_append(o1, flush_part(m1.buf));
    if m1.buf.len() > 0 {
        lemma_text_of_single(LexemeView::WordPart(m1.buf));
    } else {
        assert(flush_part(m1.buf) =~= Seq::<LexemeView>::empty());
        assert(text_of(Seq::<LexemeView>::empty()) == Seq::<char>::empty());
        assert(m1.buf =~= Seq::<char>::empty());
    }
    assert(m.buf + cs =~= cs);
}

enum Mode {
    Normal,
    InWord,
    InEraseCommand(Vec<char>),
}

/// The lexeme parser. It keeps its state between chunks.
pub struct LexemeParser {
    mode: Mode,
    word_buf: Vec<char>,
}

impl View for LexemeParser {
    type V = LexModel;

    closed spec fn view(&self) -> LexModel {
        LexModel {
            mode: match self.mode {
                Mode::Normal => LexMode::Normal,
                Mode::InWord => LexMode::InWord,
                Mode::InEraseCommand(d) => LexMode::InErase(d@),
            },
            buf: self.word_buf@,
        }
    }
}

/// Parses the digits of an erase command as `str::parse::<u32>` does, with 0
/// in place of a parse error.
fn parse_count(d: &Vec<char>) -> (n: u32)
    requires
        forall|i: int| 0 <= i < d@.len() ==> is_digit(#[trigger] d@[i]),
    ensures
        n == erase_count(d@),
{
    if d.len() == 0 {
        return 0;
    }
    let mut value: u64 = 0;
    let mut overflow = false;
    let mut i: usize = 0;
    while i < d.len()
        invariant
            i <= d@.len(),
            forall|j: int| 0 <= j < d@.len() ==> is_digit(#[trigger] d@[j]),
            !overflow ==> value == digits_value(d@.take(i as int)) && value <= u32::MAX,
            overflow ==> digits_value(d@.take(i as int)) > u32::MAX,
        decreases d@.len() - i,
    {
        assert(d@.take(i + 1).drop_last() =~= d@.take(i as int));
        assert(d@.take(i + 1).last() == d@[i as int]);
        let c = d[i];
        assert(is_digit(c));
        let digit: u64 = (c as u64) - ('0' as u64);
        if !overflow {
            value = value * 10 + digit;
            if value > 0xffff_ffff {
                overflow = true;
            }
        }
        i = i + 1;
    }
    assert(d@.take(d@.len() as int) =~= d@);
    if overflow {
        0
    } else {
        value as u32
    }
}

impl LexemeParser {
    /// A parser outside any word.
    pub fn new() -> (p: Self)
        ensures
            p@ == initial_model(),
            p.inv(),
    {
        LexemeParser { mode: Mode::Normal, word_buf: Vec::new() }
    }

    /// Digits of an open erase command are ASCII digits.
    pub closed spec fn inv(&self) -> bool {
        match self.mode {
            Mode::InEraseCommand(d) => forall|i: int|
                0 <= i < d@.len() ==> is_digit(#[trigger] d@[i]),
            _ => true,
        }
    }

    /// Hands out the pending word text, lowercased, as a `WordPart`.
    fn flush_word(&mut self, out: &mut Vec<LexemeTransfer>)
        requires
            old(self).inv(),
        ensures
            final(self).inv(),
            final(self)@ == (LexModel { mode: old(self)@.mode, buf: seq![] }),
            lexeme_views(final(out)@) == lexeme_views(old(out)@) + lower_views(
                flush_part(old(self)@.buf),
            ),
    {
        if self.word_buf.len() > 0 {
            let mut lowered: Vec<char> = Vec::new();
            let mut i: usize = 0;
            while i < self.word_buf.len()
                invariant
                    i <= self.word_buf@.len(),
                    lowered@ == lower_chars(self.word_buf@.take(i as int)),
                decreases self.word_buf@.len() - i,
            {
                let mut l = char_to_lowercase(self.word_buf[i]);
                let ghost prefix = self.word_buf@.take(i as int);
                assert(self.word_buf@.take(i + 1).drop_last() =~= prefix);
                lowered.append(&mut l);
                i = i + 1;
            }
            assert(self.word_buf@.take(i as int) =~= self.word_buf@);
            let text = string_from_chars(lowered.as_slice());
            let ghost before = out@;
            out.push(LexemeTransfer::WordPart(text));
            assert(lexeme_views(out@) =~= lexeme_views(before) + lower_views(
                flush_part(old(self)@.buf),
            ));
        } else {
            assert(lexeme_views(out@) =~= lexeme_views(out@) + lower_views(
                flush_part(old(self)@.buf),
            ));
        }
        self.word_buf.clear();
    }

    fn emit(out: &mut Vec<LexemeTransfer>, l: LexemeTransfer)
        ensures
            lexeme_views(final(out)@) == lexeme_views(old(out)@).push(l@),
    {
        let ghost before = out@;
        out.push(l);
        assert(lexeme_views(out@) =~= lexeme_views(before).push(l@));
    }

    /// Processes one character.
    fn step(&mut self, c: char, out: &mut Vec<LexemeTransfer>)
        requires
            old(self).inv(),
        ensures
            final(self).inv(),
            final(self)@ == lex_char(old(self)@, c).0,
            lexeme_views(final(out)@) == lexeme_views(old(out)@) + lower_views(
                lex_char(old(self)@, c).1,
            ),
    {
        let ghost m = self@;
        let ghost o = lexeme_views(out@);
        let in_erase = match &self.mode {
            Mode::InEraseCommand(_) => true,
            _ => false,
        };
        if in_erase {
            let mut mode = Mode::Normal;
            std::mem::swap(&mut mode, &mut self.mode);
            if let Mode::InEraseCommand(mut digits) = mode {
                if is_ascii_digit_char(c) {
                    digits.push(c);
                    self.mode = Mode::InEraseCommand(digits);
                    assert(lexeme_views(out@) =~= o + lower_views(lex_char(m, c).1));
                } else if c == ']' {
                    let count = parse_count(&digits);
                    Self::emit(out, LexemeTransfer::BackspaceCount(count));
                    Self::emit(out, LexemeTransfer::EraseEnd);
                    assert(lexeme_views(out@) =~= o + lower_views(lex_char(m, c).1));
                } else {
                    assert(lexeme_views(out@) =~= o + lower_views(lex_char(m, c).1));
                }
            }
            return;
        }
        let in_word = match self.mode {
            Mode::InWord => true,
            _ => false,
        };
        if c == '*' || c == '[' || is_whitespace_char(c) || is_punctuation(c) {
            self.flush_word(out);
            let ghost o1 = lexeme_views(out@);
            if in_word {
                Self::emit(out, LexemeTransfer::WordEnd);
            }
            assert(lexeme_views(out@) =~= o1 + lower_views(close_word(m.mode)));
            let ghost o2 = lexeme_views(out@);
            if c == '*' {
                Self::emit(out, LexemeTransfer::Stabilization);
                self.mode = Mode::Normal;
            } else if c == '[' {
                Self::emit(out, LexemeTransfer::EraseStart);
                self.mode = Mode::InEraseCommand(Vec::new());
            } else if is_whitespace_char(c) {
                Self::emit(out, LexemeTransfer::Whitespace(c));
                self.mode = Mode::Normal;
            } else {
                Self::emit(out, LexemeTransfer::Punctuation(c));
                self.mode = Mode::Normal;
            }
            let ghost r = lex_char(m, c).1;
            assert(lower_views(r) =~= lower_views(flush_part(m.buf)) + lower_views(
                close_word(m.mode),
            ) + lower_views(r.skip(r.len() - 1)));
            assert(lexeme_views(out@) =~= o + lower_views(r));
        } else {
            let was_normal = match self.mode {
                Mode::Normal => true,
                _ => false,
            };
            if was_normal {
                Self::emit(out, LexemeTransfer::WordStart);
                self.mode = Mode::InWord;
            }
            self.word_buf.push(c);
            assert(lexeme_views(out@) =~= o + lower_views(lex_char(m, c).1));
        }
    }

    /// Processes one chunk of text and returns the lexemes it yields. Pending
    /// word text is handed out at the end of the chunk, without `WordEnd`.
    pub fn push_chunk(&mut self, chunk: &str) -> (out: Vec<LexemeTransfer>)
        requires
            old(self).inv(),
        ensures
            final(self).inv(),
            final(self)@ == lex_chunk(old(self)@, chunk@).0,
            lexeme_views(out@) == lower_views(lex_chunk(old(self)@, chunk@).1),
    {
        let chars = chars_of(chunk);
        let mut out: Vec<LexemeTransfer> = Vec::new();
        let ghost m0 = self@;
        let mut i: usize = 0;
        assert(lexeme_views(out@) =~= lower_views(lex_chars(m0, chars@.take(0)).1));
        while i < chars.len()
            invariant
                i <= chars@.len(),
                chars@ == chunk@,
                self.inv(),
                self@ == lex_chars(m0, chars@.take(i as int)).0,
                lexeme_views(out@) == lower_views(lex_chars(m0, chars@.take(i as int)).1),
            decreases chars@.len() - i,
        {
            let ghost before = lexeme_views(out@);
            assert(chars@.take(i + 1).drop_last() =~= chars@.take(i as int));
            assert(chars@.take(i + 1).last() == chars@[i as int]);
            self.step(chars[i], &mut out);
            i = i + 1;
            let ghost p = lex_chars(m0, chars@.take(i - 1));
            let ghost q = lex_char(p.0, chars@[i - 1]);
            assert(lower_views(p.1 + q.1) =~= lower_views(p.1) + lower_views(q.1));
        }
        assert(chars@.take(chars@.len() as int) =~= chars@);
        let ghost before = lexeme_views(out@);
        let ghost p = lex_chars(m0, chars@);
        self.flush_word(&mut out);
        assert(lower_views(p.1 + flush_part(p.0.buf)) =~= lower_views(p.1) + lower_views(
            flush_part(p.0.buf),
        ));
        out
    }

    /// Ends the input: an open word is handed out and closed. The parser is
    /// back outside any word afterwards.
    pub fn finish(&mut self) -> (out: Vec<LexemeTransfer>)
        requires
            old(self).inv(),
        ensures
            final(self).inv(),
            final(self)@ == initial_model(),
            lexeme_views(out@) == lower_views(lex_finish(old(self)@)),
    {
        let mut out: Vec<LexemeTransfer> = Vec::new();
        let in_word = match self.mode {
            Mode::InWord => true,
            _ => false,
        };
        let ghost m = self@;
        if in_word {
            self.flush_word(&mut out);
            Self::emit(&mut out, LexemeTransfer::WordEnd);
            assert(lexeme_views(out@) =~= lower_views(lex_finish(m)));
        } else {
            self.word_buf.clear();
            assert(lexeme_views(out@) =~= lower_views(lex_finish(m)));
        }
        self.mode = Mode::Normal;
        out
    }
}

} // verus!
