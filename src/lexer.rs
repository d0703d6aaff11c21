use vstd::prelude::*;
use vstd::std_specs::iter::IteratorSpec;

use crate::token::{
    classify, classify_spec, dot_count, is_digit, is_malformed_number, is_space, is_symbol, is_valid_char,
    is_word_char, malformed_number, space_char,
    symbol_char, token_text, word_char, Token, TokenModel,
};

verus! {

/// The state of a left-to-right scan: the lexemes emitted so far, and the
/// run being accumulated.
pub struct ScanState {
    pub done: Seq<Seq<char>>,
    pub run: Seq<char>,
}

/// Why a scan stops: a character outside the alphabet at a position, or a
/// malformed number run with the position where it starts.
pub enum LexFailure {
    Invalid(char, int),
    Malformed(Seq<char>, int),
}

pub open spec fn initial_state() -> ScanState {
    ScanState { done: seq![], run: seq![] }
}

/// Emits the pending run, if any.
pub open spec fn flush(done: Seq<Seq<char>>, run: Seq<char>) -> Seq<Seq<char>> {
    if run.len() == 0 {
        done
    } else {
        done.push(run)
    }
}

/// A decimal point continues a run that started with a digit.
pub open spec fn dot_allowed(run: Seq<char>) -> bool {
    run.len() > 0 && is_digit(run[0])
}

/// One step of the scan, on the character `c` at position `i`: a word
/// character (or a decimal point inside a number) extends the run; anything
/// else ends it, and a malformed number then stops the scan; a symbol is a
/// lexeme of its own; whitespace only separates; any other character stops
/// the scan.
pub open spec fn step(st: ScanState, c: char, i: int) -> Result<ScanState, LexFailure> {
    if is_word_char(c) || (c == '.' && dot_allowed(st.run)) {
        Ok(ScanState { done: st.done, run: st.run.push(c) })
    } else if is_malformed_number(st.run) {
        Err(LexFailure::Malformed(st.run, i - st.run.len()))
    } else if is_space(c) {
        Ok(ScanState { done: flush(st.done, st.run), run: seq![] })
    } else if is_symbol(c) {
        Ok(ScanState { done: flush(st.done, st.run).push(seq![c]), run: seq![] })
    } else {
        Err(LexFailure::Invalid(c, i))
    }
}

/// The scan of `s` from `st`, where `s` starts at position `off` of the input.
pub open spec fn steps(st: ScanState, s: Seq<char>, off: int) -> Result<ScanState, LexFailure>
    decreases s.len(),
{
    if s.len() == 0 {
        Ok(st)
    } else {
        match steps(st, s.drop_last(), off) {
            Err(e) => Err(e),
            Ok(st2) => step(st2, s.last(), off + s.len() - 1),
        }
    }
}

/// The end of input ends the pending run.
pub open spec fn finish(st: ScanState, end: int) -> Result<Seq<Seq<char>>, LexFailure> {
    if is_malformed_number(st.run) {
        Err(LexFailure::Malformed(st.run, end - st.run.len()))
    } else {
        Ok(flush(st.done, st.run))
    }
}

/// The lexemes of a text by maximal munch, or why it has none.
pub open spec fn lex_spec(s: Seq<char>) -> Result<Seq<Seq<char>>, LexFailure> {
    match steps(initial_state(), s, 0) {
        Err(e) => Err(e),
        Ok(st) => finish(st, s.len() as int),
    }
}

/// The token sequence of a text, ended by `EndOfInput`, or why it has none.
pub open spec fn tokens_spec(s: Seq<char>) -> Result<Seq<TokenModel>, LexFailure> {
    match lex_spec(s) {
        Err(e) => Err(e),
        Ok(ws) => Ok(ws.map_values(|w: Seq<char>| classify_spec(w)).push(TokenModel::EndOfInput)),
    }
}

/// The input is over letters, digits, underscores, symbols and whitespace.
pub open spec fn all_valid(s: Seq<char>) -> bool {
    forall|i: int| 0 <= i < s.len() ==> is_valid_char(#[trigger] s[i])
}

/// `p` is the position of the first character outside letters, digits,
/// underscores, symbols and whitespace.
pub open spec fn first_invalid_at(s: Seq<char>, p: int) -> bool {
    &&& 0 <= p < s.len()
    &&& !is_valid_char(s[p])
    &&& forall|j: int| 0 <= j < p ==> is_valid_char(#[trigger] s[j])
}

pub open spec fn strings_view(v: Seq<String>) -> Seq<Seq<char>> {
    v.map_values(|x: String| x@)
}

pub open spec fn tokens_view(v: Seq<Token>) -> Seq<TokenModel> {
    v.map_values(|t: Token| t@)
}

/// An error of the tokenizer. Positions count characters from zero.
#[derive(Debug, Clone, PartialEq, Eq)]
pub enum LexError {
    /// The character `ch` at `position` cannot appear there.
    InvalidCharacter { ch: char, position: usize },
    /// The run `text` starting at `position` looks like a number but is not one.
    MalformedNumber { text: String, position: usize },
}

/// `e` reports the failure `f`.
pub open spec fn reports(e: LexError, f: LexFailure) -> bool {
    match e {
        LexError::InvalidCharacter { ch, position } => f == LexFailure::Invalid(ch, position as int),
        LexError::MalformedNumber { text, position } => f == LexFailure::Malformed(
            text@,
            position as int,
        ),
    }
}

/// Relies on `String::push`: appends one character at the end of the string.
#[verifier::external_body]
fn push_char(s: &mut String, c: char)
    ensures
        final(s)@ == old(s)@.push(c),
{
    s.push(c);
}

/// Emits the pending run held in `buffer`, if any, and empties the buffer.
fn flush_run(buffer: &mut String, out: &mut Vec<String>)
    ensures
        strings_view(final(out)@) == flush(strings_view(old(out)@), old(buffer)@),
        final(buffer)@ == Seq::<char>::empty(),
{
    let ghost before = strings_view(out@);
    if buffer.as_str().unicode_len() > 0 {
        out.push(buffer.clone());
        proof {
            assert(strings_view(out@) =~= before.push(old(buffer)@));
        }
    }
    *buffer = String::new();
}

/// Once the scan of a prefix stops, the scan of any longer prefix stops in
/// the same way.
proof fn lemma_stop_persists(s: Seq<char>, k: int, m: int)
    requires
        0 <= k <= m <= s.len(),
        steps(initial_state(), s.subrange(0, k), 0) is Err,
    ensures
        steps(initial_state(), s.subrange(0, m), 0) == steps(initial_state(), s.subrange(0, k), 0),
    decreases m - k,
{
    if m > k {
        lemma_stop_persists(s, k, m - 1);
        assert(s.subrange(0, m).drop_last() =~= s.subrange(0, m - 1));
    }
}

/// Splits `input` into its lexemes: maximal runs of letters, digits and
/// underscores (with decimal points inside runs that start with a digit), and
/// single symbol characters. Whitespace only separates. Fails at the first
/// character that cannot appear where it stands, or at the end of the first
/// run that looks like a number and is not one.
pub fn lexer(input: &str) -> (r: Result<Vec<String>, LexError>)
    ensures
        lex_spec(input@) matches Ok(ws) ==> r matches Ok(v) && strings_view(v@) == ws,
        lex_spec(input@) matches Err(f) ==> r matches Err(e) && reports(e, f),
{
    broadcast use vstd::string::axiom_spec_iter, vstd::string::next_postcondition;

    let n = input.unicode_len();
    let mut chars = input.chars();
    let mut out: Vec<String> = Vec::new();
    let mut buffer = String::new();
    let mut run_starts_with_digit = false;
    let mut start: usize = 0;
    let mut i: usize = 0;
    proof {
        assert(strings_view(out@) =~= Seq::<Seq<char>>::empty());
        assert(input@.subrange(0, 0) =~= Seq::<char>::empty());
        assert(input@.subrange(0, n as int) =~= input@);
    }
    while i < n
        invariant
            n == input@.len(),
            0 <= start <= i <= n,
            chars.obeys_prophetic_iter_laws(),
            chars.remaining() == input@.subrange(i as int, n as int),
            buffer@ == input@.subrange(start as int, i as int),
            run_starts_with_digit == dot_allowed(buffer@),
            steps(initial_state(), input@.subrange(0, i as int), 0) == Ok::<
                ScanState,
                LexFailure,
            >(ScanState { done: strings_view(out@), run: buffer@ }),
        ensures
            i == n,
        decreases n - i,
    {
        let c = match chars.next() {
            Some(c) => c,
            None => break,
        };
        let ghost run = buffer@;
        proof {
            assert(c == input@[i as int]);
            assert(input@.subrange(i as int, n as int).drop_first() =~= input@.subrange(
                i + 1,
                n as int,
            ));
            assert(input@.subrange(0, i + 1).drop_last() =~= input@.subrange(0, i as int));
        }
        if word_char(c) || (c == '.' && run_starts_with_digit) {
            if start == i {
                run_starts_with_digit = '0' <= c && c <= '9';
            }
            push_char(&mut buffer, c);
            i += 1;
            proof {
                assert(input@.subrange(start as int, i as int) =~= run.push(c));
                assert(buffer@[0] == run.push(c)[0]);
            }
        } else {
            if malformed_number(buffer.as_str()) {
                proof {
                    lemma_stop_persists(input@, i + 1, n as int);
                    assert(input@.subrange(0, n as int) =~= input@);
                }
                return Err(LexError::MalformedNumber { text: buffer, position: start });
            }
            if space_char(c) {
                flush_run(&mut buffer, &mut out);
            } else if symbol_char(c) {
                flush_run(&mut buffer, &mut out);
                let mut sym = String::new();
                push_char(&mut sym, c);
                let ghost before = strings_view(out@);
                out.push(sym);
                proof {
                    assert(Seq::<char>::empty().push(c) =~= seq![c]);
                    assert(strings_view(out@) =~= before.push(seq![c]));
                }
            } else {
                proof {
                    lemma_stop_persists(input@, i + 1, n as int);
                    assert(input@.subrange(0, n as int) =~= input@);
                }
                return Err(LexError::InvalidCharacter { ch: c, position: i });
            }
            run_starts_with_digit = false;
            i += 1;
            start = i;
            proof {
                assert(input@.subrange(start as int, i as int) =~= Seq::<char>::empty());
            }
        }
    }
    proof {
        assert(input@.subrange(0, n as int) =~= input@);
    }
    if malformed_number(buffer.as_str()) {
        return Err(LexError::MalformedNumber { text: buffer, position: start });
    }
    flush_run(&mut buffer, &mut out);
    Ok(out)
}

/// Converts `source` into its tokens, ending with `EndOfInput`. Fails at the
/// first character outside the alphabet, with no tokens.
pub fn tokenize(source: &str) -> (r: Result<Vec<Token>, LexError>)
    ensures
        tokens_spec(source@) matches Ok(ts) ==> r matches Ok(v) && tokens_view(v@) == ts,
        tokens_spec(source@) matches Err(f) ==> r matches Err(e) && reports(e, f),
{
    let words = match lexer(source) {
        Ok(words) => words,
        Err(e) => return Err(e),
    };
    let mut out: Vec<Token> = Vec::new();
    let mut i: usize = 0;
    while i < words.len()
        invariant
            0 <= i <= words@.len(),
            lex_spec(source@) == Ok::<Seq<Seq<char>>, LexFailure>(strings_view(words@)),
            tokens_view(out@) == strings_view(words@).subrange(0, i as int).map_values(
                |w: Seq<char>| classify_spec(w),
            ),
        decreases words@.len() - i,
    {
        let t = classify(&words[i]);
        let ghost before = tokens_view(out@);
        out.push(t);
        proof {
            assert(words@[i as int]@ == strings_view(words@)[i as int]);
            assert(tokens_view(out@) =~= before.push(t@));
            assert(strings_view(words@).subrange(0, i + 1).map_values(|w: Seq<char>| classify_spec(w))
                =~= strings_view(words@).subrange(0, i as int).map_values(
                |w: Seq<char>| classify_spec(w),
            ).push(classify_spec(strings_view(words@)[i as int])));
        }
        i += 1;
    }
    let ghost before = tokens_view(out@);
    out.push(Token::EndOfInput);
    proof {
        assert(strings_view(words@).subrange(0, i as int) =~= strings_view(words@));
        assert(tokens_view(out@) =~= before.push(TokenModel::EndOfInput));
    }
    Ok(out)
}

/// What a token contributes to the printed form of a sequence: its text and
/// one space; the end marker contributes nothing.
pub open spec fn printed_piece(t: TokenModel) -> Seq<char> {
    if t is EndOfInput {
        seq![]
    } else {
        token_text(t).push(' ')
    }
}

/// The printed form of a token sequence.
pub open spec fn printed(ts: Seq<TokenModel>) -> Seq<char>
    decreases ts.len(),
{
    if ts.len() == 0 {
        seq![]
    } else {
        printed(ts.drop_last()) + printed_piece(ts.last())
    }
}

/// Prints a token sequence as source text: each token's text followed by a space.
pub fn render(tokens: &Vec<Token>) -> (r: String)
    ensures
        r@ == printed(tokens_view(tokens@)),
{
    let mut out = String::new();
    let mut i: usize = 0;
    while i < tokens.len()
        invariant
            0 <= i <= tokens@.len(),
            out@ == printed(tokens_view(tokens@).subrange(0, i as int)),
        decreases tokens@.len() - i,
    {
        let t = &tokens[i];
        let ghost before = out@;
        proof {
            let sub = tokens_view(tokens@).subrange(0, i + 1);
            assert(sub.drop_last() =~= tokens_view(tokens@).subrange(0, i as int));
            assert(sub.last() == t@);
        }
        match t {
            Token::EndOfInput => {
                proof {
                    assert(before =~= before + Seq::<char>::empty());
                }
            },
            _ => {
                out.append(t.text());
                proof {
                    reveal_strlit(" ");
                }
                out.append(" ");
            },
        }
        i += 1;
    }
    proof {
        assert(tokens_view(tokens@).subrange(0, i as int) =~= tokens_view(tokens@));
    }
    out
}

/// The concatenation of a sequence of words.
pub open spec fn concat(ws: Seq<Seq<char>>) -> Seq<char>
    decreases ws.len(),
{
    if ws.len() == 0 {
        seq![]
    } else {
        concat(ws.drop_last()) + ws.last()
    }
}

/// The concatenation of the texts of a token sequence.
pub open spec fn spelled(ts: Seq<TokenModel>) -> Seq<char>
    decreases ts.len(),
{
    if ts.len() == 0 {
        seq![]
    } else {
        spelled(ts.drop_last()) + token_text(ts.last())
    }
}

/// A text with its whitespace removed.
pub open spec fn strip_space(s: Seq<char>) -> Seq<char>
    decreases s.len(),
{
    if s.len() == 0 {
        seq![]
    } else if is_space(s.last()) {
        strip_space(s.drop_last())
    } else {
        strip_space(s.drop_last()).push(s.last())
    }
}

/// The shape of a run: word characters, and decimal points when it starts
/// with a digit.
pub open spec fn run_shaped(w: Seq<char>) -> bool {
    forall|i: int| 0 <= i < w.len() ==> is_word_char(#[trigger] w[i]) || (w[i] == '.' && is_digit(w[0]))
}

/// A lexeme: a non-empty run that is not a malformed number, or one symbol.
pub open spec fn is_lexeme(w: Seq<char>) -> bool {
    (w.len() > 0 && run_shaped(w) && !is_malformed_number(w)) || (w.len() == 1 && is_symbol(w[0]))
}

pub open spec fn state_ok(st: ScanState) -> bool {
    &&& forall|i: int| 0 <= i < st.done.len() ==> is_lexeme(#[trigger] st.done[i])
    &&& run_shaped(st.run)
}

/// Each lexeme followed by one space.
pub open spec fn joined(ws: Seq<Seq<char>>) -> Seq<char>
    decreases ws.len(),
{
    if ws.len() == 0 {
        seq![]
    } else {
        joined(ws.drop_last()) + ws.last().push(' ')
    }
}

proof fn lemma_concat_flush(d: Seq<Seq<char>>, run: Seq<char>)
    ensures
        concat(flush(d, run)) == concat(d) + run,
{
    if run.len() == 0 {
        assert(concat(d) + run =~= concat(d));
    } else {
        assert(d.push(run).drop_last() =~= d);
    }
}

/// Over the alphabet without decimal points, the scan never stops, its run
/// holds no point, and what it has read spells the input without whitespace.
proof fn lemma_scan_spelling(s: Seq<char>)
    requires
        all_valid(s),
    ensures
        steps(initial_state(), s, 0) is Ok,
        dot_count(steps(initial_state(), s, 0)->Ok_0.run) == 0,
        concat(steps(initial_state(), s, 0)->Ok_0.done) + steps(initial_state(), s, 0)->Ok_0.run
            == strip_space(s),
    decreases s.len(),
{
    if s.len() > 0 {
        let p = s.drop_last();
        let c = s.last();
        assert(all_valid(p)) by {
            assert forall|i: int| 0 <= i < p.len() implies is_valid_char(#[trigger] p[i]) by {
                assert(p[i] == s[i]);
            }
        }
        assert(is_valid_char(s[s.len() - 1]));
        lemma_scan_spelling(p);
        let st = steps(initial_state(), p, 0)->Ok_0;
        lemma_concat_flush(st.done, st.run);
        assert(!is_malformed_number(st.run));
        if is_word_char(c) {
            assert(st.run.push(c).drop_last() =~= st.run);
            assert(concat(st.done) + st.run.push(c) =~= (concat(st.done) + st.run).push(c));
        } else if is_symbol(c) {
            let d2 = flush(st.done, st.run).push(seq![c]);
            assert(d2.drop_last() =~= flush(st.done, st.run));
            assert(concat(d2) + Seq::<char>::empty() =~= (concat(st.done) + st.run).push(c));
        } else {
            assert(concat(flush(st.done, st.run)) + Seq::<char>::empty() =~= concat(st.done)
                + st.run);
        }
    }
}

proof fn lemma_lexeme_text(w: Seq<char>)
    requires
        is_lexeme(w),
    ensures
        token_text(classify_spec(w)) == w,
        !(classify_spec(w) is EndOfInput),
{
    if w.len() == 1 && is_symbol(w[0]) {
        assert(seq![w[0]] =~= w);
    }
}

proof fn lemma_spelled_classified(ws: Seq<Seq<char>>)
    requires
        forall|i: int| 0 <= i < ws.len() ==> is_lexeme(#[trigger] ws[i]),
    ensures
        spelled(ws.map_values(|w: Seq<char>| classify_spec(w))) == concat(ws),
        printed(ws.map_values(|w: Seq<char>| classify_spec(w))) == joined(ws),
    decreases ws.len(),
{
    if ws.len() > 0 {
        let ts = ws.map_values(|w: Seq<char>| classify_spec(w));
        assert(ts.drop_last() =~= ws.drop_last().map_values(|w: Seq<char>| classify_spec(w)));
        lemma_spelled_classified(ws.drop_last());
        lemma_lexeme_text(ws.last());
    }
}

proof fn lemma_steps_well_formed(st: ScanState, s: Seq<char>, off: int)
    requires
        state_ok(st),
    ensures
        steps(st, s, off) matches Ok(st2) ==> state_ok(st2),
    decreases s.len(),
{
    if s.len() > 0 {
        lemma_steps_well_formed(st, s.drop_last(), off);
        if let Ok(st1) = steps(st, s.drop_last(), off) {
            let c = s.last();
            if is_word_char(c) || (c == '.' && dot_allowed(st1.run)) {
                let r = st1.run.push(c);
                assert forall|i: int| 0 <= i < r.len() implies is_word_char(#[trigger] r[i]) || (
                r[i] == '.' && is_digit(r[0])) by {
                    if i < st1.run.len() {
                        assert(r[i] == st1.run[i]);
                        assert(r[0] == st1.run[0]);
                    }
                }
            } else if !is_malformed_number(st1.run) {
                let f = flush(st1.done, st1.run);
                assert(forall|i: int| 0 <= i < f.len() ==> is_lexeme(#[trigger] f[i]));
                if is_symbol(c) && !is_space(c) {
                    assert(is_lexeme(seq![c]));
                    assert(forall|i: int|
                        0 <= i < f.push(seq![c]).len() ==> is_lexeme(#[trigger] f.push(seq![c])[i]));
                }
            }
        }
    }
}

proof fn lemma_lexemes_well_formed(s: Seq<char>)
    ensures
        lex_spec(s) matches Ok(ws) ==> forall|i: int| 0 <= i < ws.len() ==> is_lexeme(#[trigger] ws[i]),
{
    assert(state_ok(initial_state()));
    lemma_steps_well_formed(initial_state(), s, 0);
}

proof fn lemma_steps_append(st: ScanState, a: Seq<char>, b: Seq<char>, off: int)
    ensures
        steps(st, a + b, off) == match steps(st, a, off) {
            Err(e) => Err(e),
            Ok(st2) => steps(st2, b, off + a.len()),
        },
    decreases b.len(),
{
    if b.len() == 0 {
        assert(a + b =~= a);
    } else {
        assert((a + b).drop_last() =~= a + b.drop_last());
        lemma_steps_append(st, a, b.drop_last(), off);
    }
}

proof fn lemma_steps_run(d: Seq<Seq<char>>, w: Seq<char>, off: int)
    requires
        run_shaped(w),
    ensures
        steps(ScanState { done: d, run: seq![] }, w, off) == Ok::<ScanState, LexFailure>(
            ScanState { done: d, run: w },
        ),
    decreases w.len(),
{
    if w.len() == 0 {
        assert(w =~= Seq::<char>::empty());
    } else {
        let p = w.drop_last();
        assert(run_shaped(p)) by {
            assert forall|i: int| 0 <= i < p.len() implies is_word_char(#[trigger] p[i]) || (p[i]
                == '.' && is_digit(p[0])) by {
                assert(p[i] == w[i]);
                assert(p[0] == w[0]);
            }
        }
        lemma_steps_run(d, p, off);
        assert(is_word_char(w[w.len() - 1]) || (w[w.len() - 1] == '.' && is_digit(w[0])));
        if w.len() == 1 {
            assert(w[0] != '.');
        } else {
            assert(p[0] == w[0]);
        }
        assert(p.push(w.last()) =~= w);
    }
}

proof fn lemma_steps_piece(d: Seq<Seq<char>>, w: Seq<char>, off: int)
    requires
        is_lexeme(w),
    ensures
        steps(ScanState { done: d, run: seq![] }, w.push(' '), off) == Ok::<ScanState, LexFailure>(
            ScanState { done: d.push(w), run: seq![] },
        ),
{
    let st0 = ScanState { done: d, run: seq![] };
    assert(w.push(' ').drop_last() =~= w);
    if w.len() > 0 && run_shaped(w) && !is_malformed_number(w) {
        lemma_steps_run(d, w, off);
    } else {
        assert(w.drop_last() =~= Seq::<char>::empty());
        assert(seq![w[0]] =~= w);
        assert(steps(st0, w.drop_last(), off) == Ok::<ScanState, LexFailure>(st0));
        assert(!is_malformed_number(st0.run));
        assert(steps(st0, w, off) == step(st0, w[0], off));
    }
}

proof fn lemma_steps_joined(ws: Seq<Seq<char>>)
    requires
        forall|i: int| 0 <= i < ws.len() ==> is_lexeme(#[trigger] ws[i]),
    ensures
        steps(initial_state(), joined(ws), 0) == Ok::<ScanState, LexFailure>(
            ScanState { done: ws, run: seq![] },
        ),
    decreases ws.len(),
{
    if ws.len() == 0 {
        assert(ws =~= Seq::<Seq<char>>::empty());
    } else {
        let p = ws.drop_last();
        let w = ws.last();
        lemma_steps_joined(p);
        lemma_steps_append(initial_state(), joined(p), w.push(' '), 0);
        assert(is_lexeme(ws[ws.len() - 1]));
        lemma_steps_piece(p, w, joined(p).len() as int);
        assert(p.push(w) =~= ws);
    }
}

/// Over letters, digits, underscores, symbols and whitespace the tokenizer
/// never fails, and the texts of the tokens, in order, spell the input with
/// its whitespace removed.
pub proof fn law_tokens_spell_input(s: Seq<char>)
    requires
        all_valid(s),
    ensures
        tokens_spec(s) is Ok,
        spelled(tokens_spec(s)->Ok_0) == strip_space(s),
{
    lemma_scan_spelling(s);
    let st = steps(initial_state(), s, 0)->Ok_0;
    assert(!is_malformed_number(st.run));
    lemma_concat_flush(st.done, st.run);
    lemma_lexemes_well_formed(s);
    let ws = lex_spec(s)->Ok_0;
    lemma_spelled_classified(ws);
    let ts = tokens_spec(s)->Ok_0;
    assert(ts.drop_last() =~= ws.map_values(|w: Seq<char>| classify_spec(w)));
    assert(spelled(ts) =~= spelled(ts.drop_last()));
}

/// A character outside the alphabet (other than a decimal point, which may
/// belong to a number) makes the tokenizer fail at the first such character.
pub proof fn law_first_invalid_character(s: Seq<char>, p: int)
    requires
        first_invalid_at(s, p),
        s[p] != '.',
    ensures
        tokens_spec(s) == Err::<Seq<TokenModel>, LexFailure>(LexFailure::Invalid(s[p], p)),
{
    let pre = s.subrange(0, p);
    assert(all_valid(pre)) by {
        assert forall|i: int| 0 <= i < pre.len() implies is_valid_char(#[trigger] pre[i]) by {
            assert(pre[i] == s[i]);
        }
    }
    lemma_scan_spelling(pre);
    assert(s.subrange(0, p + 1).drop_last() =~= pre);
    assert(!is_malformed_number(steps(initial_state(), pre, 0)->Ok_0.run));
    lemma_stop_persists(s, p + 1, s.len() as int);
    assert(s.subrange(0, s.len() as int) =~= s);
}

/// Printing a tokenization and tokenizing the printed text again succeeds and
/// gives the same token sequence.
pub proof fn law_retokenize_printed(s: Seq<char>)
    requires
        tokens_spec(s) is Ok,
    ensures
        tokens_spec(printed(tokens_spec(s)->Ok_0)) == tokens_spec(s),
{
    let ws = lex_spec(s)->Ok_0;
    lemma_lexemes_well_formed(s);
    lemma_spelled_classified(ws);
    let ts = tokens_spec(s)->Ok_0;
    assert(ts.drop_last() =~= ws.map_values(|w: Seq<char>| classify_spec(w)));
    assert(printed(ts) =~= joined(ws));
    lemma_steps_joined(ws);
    assert(lex_spec(joined(ws)) == Ok::<Seq<Seq<char>>, LexFailure>(ws));
}

} // verus!
