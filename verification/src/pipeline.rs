//! The stages run one after the other on a finite input: the lexer over a
//! list of text chunks, then a surgical table over the lexemes it yields.

use vstd::prelude::*;
use crate::lexeme_transfer::{LexemeTransfer, LexemeView, lexeme_views};
use crate::lexer::{LexModel, LexemeParser, flatten, initial_model, keyboard_only,
    lemma_nesting_append, lemma_nesting_chunk, lemma_nesting_finish, lemma_nesting_lower,
    lex_model_ok, word_nesting,
    law_chunk_boundaries, lemma_flatten_append, lemma_flatten_lower, lemma_lex_chars_keyboard, lemma_lower_keyboard,
    lex_chunk, lex_finish, lower_views};
use crate::screen_transfer::{ScreenTransfer, apply_transfers, lemma_apply_transfers_append, transfer_views};
use crate::text_processor::surgical_table::{board_after, board_emitted};
use crate::frankenstein_laboratory::surgical_table::SurgeTable;
use crate::frankenstein_laboratory::table_model::{law_run_keeps_mirror, m_run, mirror_inv,
    mirror_step_ok, tview};

verus! {

/// The texts of a list of chunks.
pub open spec fn chunk_views(chunks: Seq<&str>) -> Seq<Seq<char>> {
    chunks.map_values(|c: &str| c@)
}

/// Chunks fed one after the other from state `m`: the state reached and the
/// lexemes emitted, word text still raw.
pub open spec fn lex_chunks_from(m: LexModel, cs: Seq<Seq<char>>) -> (LexModel, Seq<LexemeView>)
    decreases cs.len(),
{
    if cs.len() == 0 {
        (m, seq![])
    } else {
        let (m1, o1) = lex_chunks_from(m, cs.drop_last());
        let (m2, o2) = lex_chunk(m1, cs.last());
        (m2, o1 + o2)
    }
}

/// The lexemes of a whole input, as the lexer hands them out: every chunk in
/// turn, then the end of the input, word text lowercased.
pub open spec fn lex_stream(cs: Seq<Seq<char>>) -> Seq<LexemeView> {
    let (m, o) = lex_chunks_from(initial_model(), cs);
    lower_views(o + lex_finish(m))
}

/// However the input is cut into chunks, the lexer says the same: feeding the
/// chunks one after the other yields, word text spelled out, the same events
/// and the same state as feeding their concatenation as one chunk.
pub proof fn law_any_chunking(m: LexModel, cs: Seq<Seq<char>>)
    requires
        m.buf.len() == 0,
    ensures
        lex_chunks_from(m, cs).0 == lex_chunk(m, cs.flatten()).0,
        flatten(lex_chunks_from(m, cs).1) == flatten(lex_chunk(m, cs.flatten()).1),
    decreases cs.len(),
{
    if cs.len() == 0 {
        assert(m.buf =~= Seq::<char>::empty());
        assert(flatten(lex_chunk(m, cs.flatten()).1) =~= Seq::empty()) by {
            reveal_with_fuel(flatten, 2);
        }
    } else {
        let init = cs.drop_last();
        law_any_chunking(m, init);
        assert(cs =~= init.push(cs.last()));
        init.lemma_flatten_push(cs.last());
        let a = init.flatten();
        let (m1, o1) = lex_chunks_from(m, init);
        let (m2, o2) = lex_chunk(m1, cs.last());
        law_chunk_boundaries(m, a, cs.last());
        lemma_flatten_append(o1, o2);
        lemma_flatten_append(lex_chunk(m, a).1, o2);
    }
}

/// How the input is cut into chunks does not change what the lexer hands
/// out: two inputs whose chunks join to the same text yield, word text spelled
/// out character by character, the same lexemes, word text lowercased.
pub proof fn law_stream_ignores_chunking(a: Seq<Seq<char>>, b: Seq<Seq<char>>)
    requires
        a.flatten() == b.flatten(),
    ensures
        flatten(lex_stream(a)) == flatten(lex_stream(b)),
{
    let m = initial_model();
    law_any_chunking(m, a);
    law_any_chunking(m, b);
    let (ma, oa) = lex_chunks_from(m, a);
    let (mb, ob) = lex_chunks_from(m, b);
    lemma_flatten_append(oa, lex_finish(ma));
    lemma_flatten_append(ob, lex_finish(mb));
    lemma_flatten_lower(oa + lex_finish(ma));
    lemma_flatten_lower(ob + lex_finish(mb));
}

proof fn lemma_chunks_nesting(cs: Seq<Seq<char>>)
    ensures
        lex_model_ok(lex_chunks_from(initial_model(), cs).0),
        word_nesting(false, lex_chunks_from(initial_model(), cs).1) == Some(
            lex_chunks_from(initial_model(), cs).0.mode is InWord,
        ),
    decreases cs.len(),
{
    if cs.len() > 0 {
        lemma_chunks_nesting(cs.drop_last());
        let (m1, o1) = lex_chunks_from(initial_model(), cs.drop_last());
        lemma_nesting_chunk(m1, cs.last());
        lemma_nesting_append(false, o1, lex_chunk(m1, cs.last()).1);
    }
}

/// Words are balanced in what the lexer hands out, however the input is cut
/// into chunks: each word start comes outside a word, its parts and its end
/// come inside it, every other lexeme (whitespace, punctuation, erase
/// commands, stabilization) comes outside any word, and the input ends
/// outside any word: every word start is closed by a word end before the
/// next lexeme of another kind and before the end of the input.
pub proof fn law_words_are_balanced(cs: Seq<Seq<char>>)
    ensures
        word_nesting(false, lex_stream(cs)) == Some(false),
{
    lemma_chunks_nesting(cs);
    let (m, o) = lex_chunks_from(initial_model(), cs);
    lemma_nesting_finish(m);
    lemma_nesting_append(false, o, lex_finish(m));
    lemma_nesting_lower(false, o + lex_finish(m));
}

proof fn lemma_chunks_keyboard(m: LexModel, cs: Seq<Seq<char>>)
    ensures
        keyboard_only(lex_chunks_from(m, cs).1),
    decreases cs.len(),
{
    if cs.len() > 0 {
        lemma_chunks_keyboard(m, cs.drop_last());
        let p = lex_chunks_from(m, cs.drop_last());
        lemma_lex_chars_keyboard(p.0, cs.last());
        let a = p.1;
        let b = lex_chunk(p.0, cs.last()).1;
        assert forall|i: int| 0 <= i < (a + b).len() implies !(
        #[trigger] (a + b)[i] is UserActivityDetected) by {
            if i < a.len() {
                assert((a + b)[i] == a[i]);
            } else {
                assert((a + b)[i] == b[i - a.len()]);
            }
        }
    }
}

/// The lexer reports only what the keyboard sent: no lexeme of any input
/// stream is a user activity report.
pub proof fn law_stream_is_keyboard_only(cs: Seq<Seq<char>>)
    ensures
        keyboard_only(lex_stream(cs)),
{
    let (m, o) = lex_chunks_from(initial_model(), cs);
    lemma_chunks_keyboard(initial_model(), cs);
    lemma_lex_chars_keyboard(m, seq![]);
    let f = lex_finish(m);
    assert forall|i: int| 0 <= i < (o + f).len() implies !(
    #[trigger] (o + f)[i] is UserActivityDetected) by {
        if i < o.len() {
            assert((o + f)[i] == o[i]);
        } else {
            assert((o + f)[i] == f[i - o.len()]);
        }
    }
    lemma_lower_keyboard(o + f);
}

proof fn lemma_views_append(a: Seq<LexemeTransfer>, b: Seq<LexemeTransfer>)
    ensures
        lexeme_views(a + b) == lexeme_views(a) + lexeme_views(b),
{
    assert(lexeme_views(a + b) =~= lexeme_views(a) + lexeme_views(b));
}

proof fn lemma_lower_append(a: Seq<LexemeView>, b: Seq<LexemeView>)
    ensures
        lower_views(a + b) == lower_views(a) + lower_views(b),
{
    assert(lower_views(a + b) =~= lower_views(a) + lower_views(b));
}

/// Runs the lexer over a list of chunks, as its worker does over the chunks
/// it receives until the input closes, and returns every lexeme it emits.
pub fn lex_all(chunks: &[&str]) -> (out: Vec<LexemeTransfer>)
    ensures
        lexeme_views(out@) == lex_stream(chunk_views(chunks@)),
{
    let ghost cs = chunk_views(chunks@);
    let mut parser = LexemeParser::new();
    let mut out: Vec<LexemeTransfer> = Vec::new();
    let mut i: usize = 0;
    assert(cs.take(0) =~= Seq::<Seq<char>>::empty());
    assert(lexeme_views(out@) =~= lower_views(Seq::<LexemeView>::empty()));
    while i < chunks.len()
        invariant
            i <= chunks@.len(),
            cs == chunk_views(chunks@),
            parser.inv(),
            parser@ == lex_chunks_from(initial_model(), cs.take(i as int)).0,
            lexeme_views(out@) == lower_views(lex_chunks_from(initial_model(), cs.take(i as int)).1),
        decreases chunks@.len() - i,
    {
        let ghost m0 = parser@;
        let ghost before = out@;
        let mut part = parser.push_chunk(chunks[i]);
        let ghost p = part@;
        out.append(&mut part);
        proof {
            assert(cs.take(i + 1).drop_last() =~= cs.take(i as int));
            assert(cs.take(i + 1).last() == chunks@[i as int]@);
            lemma_views_append(before, p);
            let prev = lex_chunks_from(initial_model(), cs.take(i as int));
            lemma_lower_append(prev.1, lex_chunk(prev.0, chunks@[i as int]@).1);
        }
        i = i + 1;
    }
    assert(cs.take(chunks@.len() as int) =~= cs);
    let ghost before = out@;
    let ghost m = parser@;
    let mut tail = parser.finish();
    let ghost t = tail@;
    out.append(&mut tail);
    proof {
        lemma_views_append(before, t);
        lemma_lower_append(lex_chunks_from(initial_model(), cs).1, lex_finish(m));
    }
    out
}

/// Runs the lexer and the first surgical table over a list of chunks, as the
/// worker threads do when the chunks arrive and the input then closes, and
/// returns the screen commands the table emits. Applied to an empty screen
/// they leave on it the board that the lexemes build.
pub fn run_pipeline(chunks: &[&str]) -> (r: Vec<ScreenTransfer>)
    ensures
        apply_transfers(Seq::empty(), r@) == board_after(
            (Seq::empty(), 0),
            lex_stream(chunk_views(chunks@)),
        ).0,
        transfer_views(r@) == board_emitted((Seq::empty(), 0), lex_stream(chunk_views(chunks@))),
{
    let lexemes = lex_all(chunks);
    let ghost ls = lexeme_views(lexemes@);
    proof {
        law_stream_is_keyboard_only(chunk_views(chunks@));
    }
    let mut table = crate::text_processor::surgical_table::SurgeTable::new();
    let mut out: Vec<ScreenTransfer> = Vec::new();
    let mut i: usize = 0;
    assert(ls.take(0) =~= Seq::<LexemeView>::empty());
    assert(apply_transfers(Seq::empty(), out@) == Seq::<char>::empty());
    while i < lexemes.len()
        invariant
            i <= lexemes@.len(),
            ls == lexeme_views(lexemes@),
            keyboard_only(ls),
            table.wf(),
            table.pending_transfers@.len() == 0,
            (table.cutting_board@, table.stabilization_anchor) == board_after(
                (Seq::empty(), 0),
                ls.take(i as int),
            ),
            apply_transfers(Seq::empty(), out@) == table.franken_board@,
            transfer_views(out@) == board_emitted((Seq::empty(), 0), ls.take(i as int)),
        decreases lexemes@.len() - i,
    {
        let ghost before = out@;
        let ghost fb0 = table.franken_board@;
        proof {
            assert(ls[i as int] == lexemes@[i as int]@);
            assert(!(ls[i as int] is UserActivityDetected));
        }
        table.process_lexeme(&lexemes[i]);
        let mut sent = table.pop_screen_transfers();
        let ghost added = sent@;
        proof {
            assert(added =~= added.skip(0));
        }
        out.append(&mut sent);
        proof {
            lemma_apply_transfers_append(Seq::empty(), before, added);
            assert(ls.take(i + 1).drop_last() =~= ls.take(i as int));
            assert(ls.take(i + 1).last() == ls[i as int]);
            assert(transfer_views(out@) =~= transfer_views(before) + transfer_views(added));
        }
        i = i + 1;
    }
    assert(ls.take(lexemes@.len() as int) =~= ls);
    out
}

/// Runs the lexer over a list of chunks and feeds every lexeme to `table`, as
/// the worker threads do, handing out each lexeme's screen commands as soon as
/// it is processed. The commands queued before come first. Unless one of them
/// went past the franken board, the commands take the screen from what the
/// table mirrored before to what it mirrors after.
pub fn lexer_frlab_pipeline(chunks: &[&str], table: &mut SurgeTable) -> (r: Vec<ScreenTransfer>)
    requires
        old(table).wf(),
    ensures
        final(table).wf(),
        final(table).subst_map == old(table).subst_map,
        final(table).screen_transfer_vec@.len() == 0,
        old(table).screen_transfer_vec@.is_prefix_of(r@),
        final(table).synced@ ==> old(table).synced@ && apply_transfers(
            old(table).screen(),
            r@.skip(old(table).screen_transfer_vec@.len() as int),
        ) == final(table).screen(),
        tview(*final(table)) == m_run(
            tview(*old(table)),
            lex_stream(chunk_views(chunks@)),
            old(table).subst_map@,
        ).0,
        transfer_views(r@) == m_run(
            tview(*old(table)),
            lex_stream(chunk_views(chunks@)),
            old(table).subst_map@,
        ).1,
{
    let lexemes = lex_all(chunks);
    let ghost ls = lexeme_views(lexemes@);
    let ghost t0 = *table;
    let ghost q0 = table.screen_transfer_vec@;
    proof {
        law_stream_is_keyboard_only(chunk_views(chunks@));
    }
    let mut out = table.pop_screen_transfers();
    assert(out@.skip(q0.len() as int) =~= Seq::<ScreenTransfer>::empty());
    let mut i: usize = 0;
    assert(ls.take(0) =~= Seq::<LexemeView>::empty());
    while i < lexemes.len()
        invariant
            tview(*table) == m_run(tview(t0), ls.take(i as int), t0.subst_map@).0,
            transfer_views(out@) == m_run(tview(t0), ls.take(i as int), t0.subst_map@).1,
            i <= lexemes@.len(),
            ls == lexeme_views(lexemes@),
            keyboard_only(ls),
            table.wf(),
            table.subst_map == t0.subst_map,
            table.screen_transfer_vec@.len() == 0,
            q0 == t0.screen_transfer_vec@,
            q0.is_prefix_of(out@),
            table.synced@ ==> t0.synced@ && apply_transfers(t0.screen(), out@.skip(q0.len() as int))
                == table.screen(),
        decreases lexemes@.len() - i,
    {
        let ghost before = out@;
        let ghost t1 = *table;
        proof {
            assert(ls[i as int] == lexemes@[i as int]@);
            assert(!(ls[i as int] is UserActivityDetected));
        }
        table.process_lexeme(&lexemes[i]);
        let ghost t2 = *table;
        let mut sent = table.pop_screen_transfers();
        let ghost added = sent@;
        out.append(&mut sent);
        proof {
            assert(t2.screen_transfer_vec@.skip(0) =~= added);
            assert(out@.skip(q0.len() as int) =~= before.skip(q0.len() as int) + added);
            assert(q0 =~= out@.subrange(0, q0.len() as int)) by {
                assert(q0 =~= before.subrange(0, q0.len() as int));
            }
            if table.synced@ {
                lemma_apply_transfers_append(t0.screen(), before.skip(q0.len() as int), added);
                assert(table.screen() == t2.screen());
            }
            assert(ls.take(i + 1).drop_last() =~= ls.take(i as int));
            assert(ls.take(i + 1).last() == ls[i as int]);
            assert(transfer_views(out@) =~= transfer_views(before) + transfer_views(added));
        }
        i = i + 1;
    }
    assert(ls.take(lexemes@.len() as int) =~= ls);
    out
}

/// The franken board mirrors the screen across a whole input: for a table
/// `a` whose screen is mirrored and whose boards agree, and the table `b`
/// that running the lexer and the table over the chunks `cs` leaves (as
/// `lexer_frlab_pipeline` states it, with the screen commands `r` it hands
/// out), where every lexeme meets a state in which the table keeps the
/// boards in agreement, replaying `r` on `a`'s screen gives `b`'s screen.
pub proof fn law_pipeline_mirrors_screen(
    a: SurgeTable,
    b: SurgeTable,
    cs: Seq<Seq<char>>,
    r: Seq<ScreenTransfer>,
)
    requires
        a.synced@,
        mirror_inv(tview(a)),
        forall|i: int|
            0 <= i < lex_stream(cs).len() ==> mirror_step_ok(
                #[trigger] m_run(tview(a), lex_stream(cs).take(i), a.subst_map@).0,
                lex_stream(cs)[i],
                a.subst_map@,
            ),
        tview(b) == m_run(tview(a), lex_stream(cs), a.subst_map@).0,
        b.synced@ ==> a.synced@ && apply_transfers(
            a.screen(),
            r.skip(a.screen_transfer_vec@.len() as int),
        ) == b.screen(),
    ensures
        b.synced@,
        mirror_inv(tview(b)),
        apply_transfers(a.screen(), r.skip(a.screen_transfer_vec@.len() as int)) == b.screen(),
{
    law_run_keeps_mirror(tview(a), lex_stream(cs), a.subst_map@);
}

} // verus!
