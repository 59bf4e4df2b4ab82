//! The backtracking tokenizer.
//!
//! All seven recognizers consume the input in parallel; after the first
//! character of a candidate token, a recognizer that falls from `Final` to
//! `NoMatch` marks a token boundary. If the killing character is a space or
//! tab it is consumed with the token; otherwise it is left to start the next
//! token. Evaluation walks the recognizers in a fixed priority order —
//! arithmetic operator, opening bracket, closing bracket, comparator,
//! keyword, number, variable — and the last boundary seen wins.
//!
//! The whole procedure is specified by the recursive function [`spec_lex`];
//! [`TokenizerIterator::next_internal`] returns exactly what it computes.

use vstd::prelude::*;

use crate::token_automata::{
    TAArithOp, TACmp, TAFun, TALParan, TANum, TARParan, TAVariable, TAVariableV,
};
use crate::tokens::{opt_token_view, LexState, Token, TokenV};

verus! {

/// Tokenizer; construct a [`TokenizerIterator`] from it to read tokens.
#[derive(Debug)]
pub struct Tokenizer {
    pub chars: Vec<char>,
}

impl View for Tokenizer {
    type V = Seq<char>;

    open spec fn view(&self) -> Seq<char> {
        self.chars@
    }
}

impl Tokenizer {
    /// Hold the characters of `input` for tokenizing.
    pub fn new(input: &str) -> (r: Self)
        ensures
            r@ == input@,
    {
        let n = input.unicode_len();
        let mut chars: Vec<char> = Vec::new();
        let mut i: usize = 0;
        while i < n
            invariant
                i <= n,
                n == input@.len(),
                chars@.len() == i,
                forall|j: int| 0 <= j < i ==> chars@[j] == input@[j],
            decreases n - i,
        {
            chars.push(input.get_char(i));
            i = i + 1;
        }
        proof {
            assert(chars@ =~= input@);
        }
        Tokenizer { chars }
    }

    /// Start reading tokens from the first character.
    pub fn into_iter(self) -> (r: TokenizerIterator)
        ensures
            r.wf(),
            r.chars() == self@,
            r.pointer == 0,
            r.current_line_number == 1,
            r.peek_buffer is None,
    {
        TokenizerIterator::new(self)
    }
}

/// The fixed recognizer set, in priority order.
#[derive(Debug)]
pub struct AutomataSet {
    pub op: TAArithOp,
    pub lparen: TALParan,
    pub rparen: TARParan,
    pub cmp: TACmp,
    pub fun: TAFun,
    pub num: TANum,
    pub var: TAVariable,
}

/// The mathematical state of the recognizer set.
pub struct AutomataSetV {
    pub op: TAArithOp,
    pub lparen: TALParan,
    pub rparen: TARParan,
    pub cmp: TACmp,
    pub fun: TAFun,
    pub num: TANum,
    pub var: TAVariableV,
}

impl View for AutomataSet {
    type V = AutomataSetV;

    open spec fn view(&self) -> AutomataSetV {
        AutomataSetV {
            op: self.op,
            lparen: self.lparen,
            rparen: self.rparen,
            cmp: self.cmp,
            fun: self.fun,
            num: self.num,
            var: self.var@,
        }
    }
}

/// All recognizers in their initial state.
pub open spec fn init_machine() -> AutomataSetV {
    AutomataSetV {
        op: TAArithOp::spec_init(),
        lparen: TALParan::spec_init(),
        rparen: TARParan::spec_init(),
        cmp: TACmp::spec_init(),
        fun: TAFun::spec_init(),
        num: TANum::spec_init(),
        var: TAVariableV::spec_init(),
    }
}

/// Bounds that every reachable recognizer state keeps.
pub open spec fn machine_inv(m: AutomataSetV) -> bool {
    m.num.inv() && m.var.inv()
}

/// One classification step: every recognizer consumes `c`; a recognizer that
/// reports `Final` also records the token it holds.
pub open spec fn machine_consume(m: AutomataSetV, c: char) -> (
    AutomataSetV,
    Seq<(LexState, Option<TokenV>)>,
) {
    let op = m.op.spec_consume(c);
    let lparen = m.lparen.spec_consume(c);
    let rparen = m.rparen.spec_consume(c);
    let cmp = m.cmp.spec_consume(c);
    let fun = m.fun.spec_consume(c);
    let num = m.num.spec_consume(c);
    let var = m.var.spec_consume(c);
    let m2 = AutomataSetV {
        op: op.0,
        lparen: lparen.0,
        rparen: rparen.0,
        cmp: cmp.0,
        fun: fun.0,
        num: num.0,
        var: var.0,
    };
    let entries = seq![
        (op.1, if op.1 is Final { op.0.spec_tokenize() } else { None }),
        (lparen.1, if lparen.1 is Final { lparen.0.spec_tokenize() } else { None }),
        (rparen.1, if rparen.1 is Final { rparen.0.spec_tokenize() } else { None }),
        (cmp.1, if cmp.1 is Final { cmp.0.spec_tokenize() } else { None }),
        (fun.1, if fun.1 is Final { fun.0.spec_tokenize() } else { None }),
        (num.1, if num.1 is Final { num.0.spec_tokenize() } else { None }),
        (var.1, if var.1 is Final { var.0.spec_tokenize() } else { None }),
    ];
    (m2, entries)
}

/// The view of a recorded classification vector.
pub open spec fn entries_view(s: Seq<(LexState, Option<Token>)>) -> Seq<
    (LexState, Option<TokenV>),
> {
    s.map_values(|p: (LexState, Option<Token>)| (p.0, opt_token_view(p.1)))
}

impl AutomataSet {
    fn new() -> (r: Self)
        ensures
            r@ == init_machine(),
            machine_inv(r@),
    {
        AutomataSet {
            op: TAArithOp::new(),
            lparen: TALParan::new(),
            rparen: TARParan::new(),
            cmp: TACmp::new(),
            fun: TAFun::new(),
            num: TANum::new(),
            var: TAVariable::new(),
        }
    }

    /// Reset every recognizer, exactly as the initial machine state says.
    fn reset_all(&mut self)
        ensures
            final(self)@ == init_machine(),
            machine_inv(final(self)@),
    {
        self.op.restart();
        self.lparen.restart();
        self.rparen.restart();
        self.cmp.restart();
        self.fun.restart();
        self.num.restart();
        self.var.restart();
    }

    /// Feed `c` to every recognizer, exactly as [`machine_consume`] says.
    fn step(&mut self, c: char) -> (r: Vec<(LexState, Option<Token>)>)
        requires
            machine_inv(old(self)@),
        ensures
            final(self)@ == machine_consume(old(self)@, c).0,
            entries_view(r@) == machine_consume(old(self)@, c).1,
            r@.len() == 7,
            machine_inv(final(self)@),
    {
        let mut states: Vec<(LexState, Option<Token>)> = Vec::new();
        let s0 = self.op.advance(c);
        states.push((s0, match s0 {
            LexState::Final => self.op.extract(),
            _ => None,
        }));
        let s1 = self.lparen.advance(c);
        states.push((s1, match s1 {
            LexState::Final => self.lparen.extract(),
            _ => None,
        }));
        let s2 = self.rparen.advance(c);
        states.push((s2, match s2 {
            LexState::Final => self.rparen.extract(),
            _ => None,
        }));
        let s3 = self.cmp.advance(c);
        states.push((s3, match s3 {
            LexState::Final => self.cmp.extract(),
            _ => None,
        }));
        let s4 = self.fun.advance(c);
        states.push((s4, match s4 {
            LexState::Final => self.fun.extract(),
            _ => None,
        }));
        let s5 = self.num.advance(c);
        states.push((s5, match s5 {
            LexState::Final => self.num.extract(),
            _ => None,
        }));
        let s6 = self.var.advance(c);
        states.push((s6, match s6 {
            LexState::Final => self.var.extract(),
            _ => None,
        }));
        proof {
            assert(entries_view(states@) =~= machine_consume(old(self)@, c).1);
        }
        states
    }
}

/// What the boundary scan over one classification step decides.
pub enum ScanOutcome {
    /// Emit this token and consume the killing character (it was whitespace).
    EmitConsume(Option<Token>),
    /// Emit this token and leave the killing character for the next token.
    EmitKeep(Option<Token>),
    /// A longer token is still possible; keep reading.
    Continue,
}

/// The view of a scan outcome.
pub enum ScanRes {
    EmitConsume(Option<TokenV>),
    EmitKeep(Option<TokenV>),
    Continue,
}

impl View for ScanOutcome {
    type V = ScanRes;

    open spec fn view(&self) -> ScanRes {
        match self {
            ScanOutcome::EmitConsume(t) => ScanRes::EmitConsume(opt_token_view(*t)),
            ScanOutcome::EmitKeep(t) => ScanRes::EmitKeep(opt_token_view(*t)),
            ScanOutcome::Continue => ScanRes::Continue,
        }
    }
}

/// The boundary scan from recognizer `i` on, carrying the pending token.
///
/// A recognizer that fell from `Final` to `NoMatch` is a boundary: on a
/// whitespace killer the scan stops there at once; otherwise its token
/// becomes the pending one. A recognizer alive on both steps withdraws the
/// pending token, since a longer match is still possible. The pending token
/// after the last recognizer is the result.
pub open spec fn scan_from(
    prev: Seq<(LexState, Option<TokenV>)>,
    cur: Seq<(LexState, Option<TokenV>)>,
    ws: bool,
    i: int,
    pending: Option<Option<TokenV>>,
) -> ScanRes
    decreases 7 - i,
{
    if i < 0 || i >= 7 {
        match pending {
            Some(t) => ScanRes::EmitKeep(t),
            None => ScanRes::Continue,
        }
    } else if cur[i].0 is NoMatch && prev[i].0 is Final && ws {
        ScanRes::EmitConsume(prev[i].1)
    } else {
        let pending2 = if cur[i].0 is NoMatch && prev[i].0 is Final {
            Some(prev[i].1)
        } else if !(cur[i].0 is NoMatch) && !(prev[i].0 is NoMatch) {
            None
        } else {
            pending
        };
        scan_from(prev, cur, ws, i + 1, pending2)
    }
}

/// The full boundary scan, in priority order.
pub open spec fn spec_scan(
    prev: Seq<(LexState, Option<TokenV>)>,
    cur: Seq<(LexState, Option<TokenV>)>,
    ws: bool,
) -> ScanRes {
    scan_from(prev, cur, ws, 0, None)
}

/// Clone an optional token.
fn clone_opt_token(t: &Option<Token>) -> (r: Option<Token>)
    ensures
        opt_token_view(r) == opt_token_view(*t),
{
    match t {
        Some(x) => Some(x.clone()),
        None => None,
    }
}

/// Walk the two classification vectors, exactly as [`spec_scan`] says.
fn scan_states(
    prev: &Vec<(LexState, Option<Token>)>,
    cur: &Vec<(LexState, Option<Token>)>,
    ws: bool,
) -> (r: ScanOutcome)
    requires
        prev@.len() == 7,
        cur@.len() == 7,
    ensures
        r@ == spec_scan(entries_view(prev@), entries_view(cur@), ws),
{
    let ghost prev_v = entries_view(prev@);
    let ghost cur_v = entries_view(cur@);
    let mut pending: Option<Option<Token>> = None;
    let mut i: usize = 0;
    while i < 7
        invariant
            i <= 7,
            prev@.len() == 7,
            cur@.len() == 7,
            prev_v == entries_view(prev@),
            cur_v == entries_view(cur@),
            scan_from(prev_v, cur_v, ws, i as int, spec_pending(pending)) == spec_scan(
                prev_v,
                cur_v,
                ws,
            ),
        decreases 7 - i,
    {
        let cur_state = cur[i].0;
        let prev_state = prev[i].0;
        let cur_dropped = matches!(cur_state, LexState::NoMatch);
        let prev_final = matches!(prev_state, LexState::Final);
        if cur_dropped && prev_final && ws {
            return ScanOutcome::EmitConsume(clone_opt_token(&prev[i].1));
        }
        if cur_dropped && prev_final {
            pending = Some(clone_opt_token(&prev[i].1));
        } else if !cur_dropped && !matches!(prev_state, LexState::NoMatch) {
            pending = None;
        }
        i = i + 1;
    }
    match pending {
        Some(t) => ScanOutcome::EmitKeep(t),
        None => ScanOutcome::Continue,
    }
}

/// The view of the pending token of the boundary scan.
pub open spec fn spec_pending(p: Option<Option<Token>>) -> Option<Option<TokenV>> {
    match p {
        Some(t) => Some(opt_token_view(t)),
        None => None,
    }
}

/// The first recorded token of a recognizer still in a final state.
pub open spec fn first_final(states: Seq<(LexState, Option<TokenV>)>) -> Option<TokenV>
    decreases states.len(),
{
    if states.len() == 0 {
        None
    } else if states[0].0 is Final {
        states[0].1
    } else {
        first_final(states.drop_first())
    }
}

/// A line counter that stops at the largest representable line.
pub open spec fn bump_line(line: u32) -> u32 {
    if line < u32::MAX {
        (line + 1) as u32
    } else {
        line
    }
}

/// What one call of the tokenizer computes, from position `pos` with machine
/// state `m` and recorded classifications `states`: the token it returns (if
/// any), the new position, and the new line number.
///
/// Between tokens (`states` empty) a newline yields an end-of-line token and
/// other whitespace is skipped. Once a candidate token has started, each
/// further character is classified by every recognizer and the boundary scan
/// decides whether a token is emitted and whether the character is consumed.
/// At the end of the input the first recognizer still in a final state, in
/// priority order, supplies the token.
pub open spec fn spec_lex(
    chars: Seq<char>,
    pos: int,
    line: u32,
    m: AutomataSetV,
    states: Seq<(LexState, Option<TokenV>)>,
) -> (Option<TokenV>, int, u32)
    decreases chars.len() - pos,
{
    if pos < 0 || pos >= chars.len() {
        (first_final(states), pos, line)
    } else {
        let c = chars[pos];
        if states.len() == 0 {
            if c == '\n' {
                (Some(TokenV::EOL), pos + 1, bump_line(line))
            } else if c == '\r' || c == ' ' || c == '\t' {
                spec_lex(chars, pos + 1, line, m, states)
            } else {
                let step = machine_consume(m, c);
                spec_lex(chars, pos + 1, line, step.0, step.1)
            }
        } else {
            let step = machine_consume(m, c);
            match spec_scan(states, step.1, c == ' ' || c == '\t') {
                ScanRes::EmitConsume(t) => (t, pos + 1, line),
                ScanRes::EmitKeep(t) => (t, pos, line),
                ScanRes::Continue => spec_lex(chars, pos + 1, line, step.0, step.1),
            }
        }
    }
}

/// The result position never moves backwards and stays within the input.
pub proof fn lemma_spec_lex_bounds(
    chars: Seq<char>,
    pos: int,
    line: u32,
    m: AutomataSetV,
    states: Seq<(LexState, Option<TokenV>)>,
)
    requires
        0 <= pos <= chars.len(),
    ensures
        pos <= spec_lex(chars, pos, line, m, states).1 <= chars.len(),
    decreases chars.len() - pos,
{
    if pos < chars.len() {
        let c = chars[pos];
        if states.len() == 0 {
            if c == '\n' {
            } else if c == '\r' || c == ' ' || c == '\t' {
                lemma_spec_lex_bounds(chars, pos + 1, line, m, states);
            } else {
                let step = machine_consume(m, c);
                lemma_spec_lex_bounds(chars, pos + 1, line, step.0, step.1);
            }
        } else {
            let step = machine_consume(m, c);
            match spec_scan(states, step.1, c == ' ' || c == '\t') {
                ScanRes::EmitConsume(_) => {},
                ScanRes::EmitKeep(_) => {},
                ScanRes::Continue => {
                    lemma_spec_lex_bounds(chars, pos + 1, line, step.0, step.1);
                },
            }
        }
    }
}

/// Started from a fresh candidate (no recorded classifications), a returned
/// token always consumes at least one character.
pub proof fn lemma_spec_lex_progress(chars: Seq<char>, pos: int, line: u32, m: AutomataSetV)
    requires
        0 <= pos <= chars.len(),
        spec_lex(chars, pos, line, m, Seq::empty()).0 is Some,
    ensures
        spec_lex(chars, pos, line, m, Seq::empty()).1 > pos,
    decreases chars.len() - pos,
{
    let states = Seq::<(LexState, Option<TokenV>)>::empty();
    if pos >= chars.len() {
        assert(first_final(states) is None);
    } else {
        let c = chars[pos];
        if c == '\n' {
        } else if c == '\r' || c == ' ' || c == '\t' {
            lemma_spec_lex_progress(chars, pos + 1, line, m);
        } else {
            let step = machine_consume(m, c);
            lemma_spec_lex_bounds(chars, pos + 1, line, step.0, step.1);
        }
    }
}

/// What the next token read yields from the abstract cursor `(pos, line)`
/// with `buf` possibly buffered: the token (if any), and the position and
/// line after it.
pub open spec fn stream_next(chars: Seq<char>, pos: int, line: u32, buf: Option<TokenV>) -> (
    Option<TokenV>,
    int,
    u32,
) {
    match buf {
        Some(t) => (Some(t), pos, line),
        None => spec_lex(chars, pos, line, init_machine(), Seq::empty()),
    }
}

/// The cursor after skipping the maximal run of end-of-line tokens: whether
/// a token other than an end-of-line marker was reached (false exactly when
/// the stream ended inside the run), and the position, line and buffered
/// token then.
pub open spec fn skip_eols(chars: Seq<char>, pos: int, line: u32, buf: Option<TokenV>) -> (
    bool,
    int,
    u32,
    Option<TokenV>,
)
    decreases 2 * (chars.len() - pos) + (if buf is Some {
        1int
    } else {
        0int
    })
        when 0 <= pos <= chars.len()
{
    let n = stream_next(chars, pos, line, buf);
    match n.0 {
        None => (false, n.1, n.2, None),
        Some(tv) => {
            if tv is EOL {
                proof {
                    if buf is None {
                        lemma_spec_lex_bounds(chars, pos, line, init_machine(), Seq::empty());
                        lemma_spec_lex_progress(chars, pos, line, init_machine());
                    }
                }
                skip_eols(chars, n.1, n.2, None)
            } else {
                (true, n.1, n.2, Some(tv))
            }
        },
    }
}

/// An abstract cursor into the token stream: the characters, the position
/// and line of the reader, and a possibly buffered token. What a parser can
/// observe of an iterator is exactly such a cursor.
pub struct Cursor {
    pub chars: Seq<char>,
    pub pos: int,
    pub line: u32,
    pub buf: Option<TokenV>,
}

/// The cursor a [`TokenizerIterator`] stands at.
pub open spec fn cur_of(it: TokenizerIterator) -> Cursor {
    Cursor {
        chars: it.chars(),
        pos: it.pointer as int,
        line: it.current_line_number,
        buf: opt_token_view(it.peek_buffer),
    }
}

/// How much input is left at `c`; every consumed token lowers it.
pub open spec fn cur_measure(c: Cursor) -> int {
    2 * (c.chars.len() - c.pos) + if c.buf is Some {
        1int
    } else {
        0int
    }
}

/// The next token at `c`, if any.
pub open spec fn cur_peek(c: Cursor) -> Option<TokenV> {
    stream_next(c.chars, c.pos, c.line, c.buf).0
}

/// The cursor after consuming the next token of `c`.
pub open spec fn cur_take(c: Cursor) -> Cursor {
    let n = stream_next(c.chars, c.pos, c.line, c.buf);
    Cursor { chars: c.chars, pos: n.1, line: n.2, buf: None }
}

/// The cursor after reading the next token of `c` into the buffer; the
/// stream it yields is unchanged.
pub open spec fn cur_peeked(c: Cursor) -> Cursor {
    let n = stream_next(c.chars, c.pos, c.line, c.buf);
    Cursor { chars: c.chars, pos: n.1, line: n.2, buf: n.0 }
}

/// The cursor after skipping the maximal run of end-of-line tokens, paired
/// with whether a token other than an end-of-line marker was reached.
pub open spec fn cur_skip_eols(c: Cursor) -> (bool, Cursor) {
    let s = skip_eols(c.chars, c.pos, c.line, c.buf);
    (s.0, Cursor { chars: c.chars, pos: s.1, line: s.2, buf: s.3 })
}

/// A structured lexing or parsing error: the line it arose on, the text of
/// that line, what was expected, and the token actually seen (`None` for the
/// end of the input).
#[derive(Debug)]
pub struct ParseError {
    pub line_number: u32,
    pub line_text: String,
    pub expected: String,
    pub got: Option<Token>,
}

/// The start of the line containing position `p`: just after the previous
/// newline, or the start of the input.
pub open spec fn start_of_line(chars: Seq<char>, p: int) -> int
    decreases p,
{
    if p <= 0 {
        0
    } else if chars[p - 1] == '\n' {
        p
    } else {
        start_of_line(chars, p - 1)
    }
}

/// The end of the line from position `q` on: the next newline, or the end of
/// the input.
pub open spec fn end_of_line(chars: Seq<char>, q: int) -> int
    decreases chars.len() - q,
{
    if q < 0 || q >= chars.len() {
        chars.len() as int
    } else if chars[q] == '\n' {
        q
    } else {
        end_of_line(chars, q + 1)
    }
}

/// The actual lexer: drives the recognizer set over the character stream and
/// hands out one token at a time, with one token of lookahead.
pub struct TokenizerIterator {
    pub tokenizer: Tokenizer,
    pub current_line_number: u32,
    pub pointer: usize,
    pub state_machine: AutomataSet,
    pub peek_buffer: Option<Token>,
}

impl TokenizerIterator {
    /// The characters being tokenized.
    pub open spec fn chars(self) -> Seq<char> {
        self.tokenizer@
    }

    /// The cursor is inside the input and the machine state is reachable.
    pub open spec fn wf(self) -> bool {
        &&& self.pointer <= self.chars().len()
        &&& machine_inv(self.state_machine@)
    }

    /// How much input is left: two units per unread character, one for a
    /// buffered token. Every returned token strictly lowers this measure.
    pub open spec fn measure(self) -> int {
        2 * (self.chars().len() - self.pointer) + if self.peek_buffer is Some {
            1int
        } else {
            0int
        }
    }

    /// What the next call of [`Self::next`] returns and where it leaves the
    /// cursor: the buffered token if there is one, else what [`spec_lex`]
    /// computes from the current position with a fresh machine.
    pub open spec fn spec_next(self) -> (Option<TokenV>, int, u32) {
        match self.peek_buffer {
            Some(t) => (Some(t@), self.pointer as int, self.current_line_number),
            None => spec_lex(
                self.chars(),
                self.pointer as int,
                self.current_line_number,
                init_machine(),
                Seq::empty(),
            ),
        }
    }

    fn new(tokenizer: Tokenizer) -> (r: Self)
        ensures
            r.wf(),
            r.chars() == tokenizer@,
            r.pointer == 0,
            r.current_line_number == 1,
            r.peek_buffer is None,
    {
        TokenizerIterator {
            tokenizer,
            current_line_number: 1,
            pointer: 0,
            state_machine: AutomataSet::new(),
            peek_buffer: None,
        }
    }

    /// Produce the next token, or `None` at the end of the input or when no
    /// recognizer can match (a lexical error degrades to end-of-sequence).
    #[verifier::loop_isolation(false)]
    pub fn next_internal(&mut self) -> (r: Option<Token>)
        requires
            old(self).wf(),
        ensures
            final(self).wf(),
            final(self).chars() == old(self).chars(),
            final(self).peek_buffer is None,
            opt_token_view(r) == old(self).spec_next().0,
            final(self).pointer as int == old(self).spec_next().1,
            final(self).current_line_number == old(self).spec_next().2,
            r is Some ==> final(self).measure() < old(self).measure(),
            final(self).measure() <= old(self).measure(),
    {
        self.state_machine.reset_all();

        if self.peek_buffer.is_some() {
            let token = self.peek_buffer.take();
            return token;
        }

        let ghost c0 = self.chars();
        let ghost p0 = self.pointer as int;
        let ghost l0 = self.current_line_number;
        proof {
            lemma_spec_lex_bounds(c0, p0, l0, init_machine(), Seq::empty());
            if spec_lex(c0, p0, l0, init_machine(), Seq::empty()).0 is Some {
                lemma_spec_lex_progress(c0, p0, l0, init_machine());
            }
        }

        let mut states: Vec<(LexState, Option<Token>)> = Vec::new();
        proof {
            assert(entries_view(states@) =~= Seq::<(LexState, Option<TokenV>)>::empty());
        }

        loop
            invariant
                self.wf(),
                self.chars() == c0,
                self.peek_buffer is None,
                states@.len() == 0 || states@.len() == 7,
                p0 <= self.pointer as int <= c0.len(),
                spec_lex(
                    c0,
                    self.pointer as int,
                    self.current_line_number,
                    self.state_machine@,
                    entries_view(states@),
                ) == spec_lex(c0, p0, l0, init_machine(), Seq::empty()),
            decreases c0.len() - self.pointer,
        {
            if self.pointer >= self.tokenizer.chars.len() {
                // End of input: the first recognizer still final supplies the token.
                let ghost sv = entries_view(states@);
                proof {
                    assert(sv.skip(0) =~= sv);
                }
                let mut j: usize = 0;
                while j < states.len()
                    invariant
                        j <= states@.len(),
                        sv == entries_view(states@),
                        sv.len() == states@.len(),
                        first_final(sv.skip(j as int)) == first_final(sv),
                    decreases states@.len() - j,
                {
                    let is_final = matches!(states[j].0, LexState::Final);
                    proof {
                        assert(sv.skip(j as int)[0] == sv[j as int]);
                        assert(sv.skip(j as int).drop_first() =~= sv.skip(j as int + 1));
                    }
                    if is_final {
                        return clone_opt_token(&states[j].1);
                    }
                    j = j + 1;
                }
                proof {
                    assert(sv.skip(states@.len() as int) =~= Seq::<
                        (LexState, Option<TokenV>),
                    >::empty());
                }
                return None;
            }
            let c = self.tokenizer.chars[self.pointer];
            if states.len() == 0 {
                if c == '\n' {
                    if self.current_line_number < u32::MAX {
                        self.current_line_number = self.current_line_number + 1;
                    }
                    self.pointer = self.pointer + 1;
                    return Some(Token::EOL);
                }
                if c == '\r' || c == ' ' || c == '\t' {
                    self.pointer = self.pointer + 1;
                    continue;
                }
                let cur = self.state_machine.step(c);
                states = cur;
                self.pointer = self.pointer + 1;
            } else {
                let ws = c == ' ' || c == '\t';
                let ghost prev_v = entries_view(states@);
                let ghost m_before = self.state_machine@;
                let cur = self.state_machine.step(c);
                match scan_states(&states, &cur, ws) {
                    ScanOutcome::EmitConsume(t) => {
                        self.pointer = self.pointer + 1;
                        return t;
                    },
                    ScanOutcome::EmitKeep(t) => {
                        return t;
                    },
                    ScanOutcome::Continue => {
                        states = cur;
                        self.pointer = self.pointer + 1;
                    },
                }
            }
        }
    }

    /// Produce the next token; same behaviour as [`Self::next_internal`].
    pub fn next(&mut self) -> (r: Option<Token>)
        requires
            old(self).wf(),
        ensures
            final(self).wf(),
            final(self).chars() == old(self).chars(),
            final(self).peek_buffer is None,
            opt_token_view(r) == old(self).spec_next().0,
            final(self).pointer as int == old(self).spec_next().1,
            final(self).current_line_number == old(self).spec_next().2,
            r is Some ==> final(self).measure() < old(self).measure(),
            final(self).measure() <= old(self).measure(),
    {
        self.next_internal()
    }

    /// Look at the next token without consuming it. The token is buffered;
    /// the following [`Self::next`] returns it without reading the input.
    pub fn peek(&mut self) -> (r: Option<Token>)
        requires
            old(self).wf(),
        ensures
            final(self).wf(),
            final(self).chars() == old(self).chars(),
            opt_token_view(r) == old(self).spec_next().0,
            opt_token_view(final(self).peek_buffer) == opt_token_view(r),
            r is Some ==> final(self).peek_buffer is Some,
            r is Some ==> final(self).spec_next().0 == opt_token_view(r),
            final(self).measure() <= old(self).measure(),
            old(self).peek_buffer is Some ==> *final(self) == *old(self),
            old(self).peek_buffer is None ==> final(self).pointer as int == old(
                self,
            ).spec_next().1 && final(self).current_line_number == old(self).spec_next().2,
    {
        if self.peek_buffer.is_some() {
            let r = clone_opt_token(&self.peek_buffer);
            return r;
        }
        let token = self.next();
        self.peek_buffer = clone_opt_token(&token);
        token
    }

    /// The text of the line the cursor is on.
    #[verifier::loop_isolation(false)]
    pub fn current_line(&self) -> (r: String)
        requires
            self.wf(),
        ensures
            r@ == self.chars().subrange(
                start_of_line(self.chars(), self.pointer as int),
                end_of_line(self.chars(), start_of_line(self.chars(), self.pointer as int)),
            ),
    {
        let ghost chars = self.chars();
        let mut start: usize = self.pointer;
        while start > 0 && self.tokenizer.chars[start - 1] != '\n'
            invariant
                0 <= start <= self.pointer,
                self.pointer <= chars.len(),
                chars == self.chars(),
                start_of_line(chars, start as int) == start_of_line(chars, self.pointer as int),
            decreases start,
        {
            start = start - 1;
        }
        proof {
            assert(start_of_line(chars, start as int) == start as int);
        }
        let mut out = String::new();
        let mut q: usize = start;
        while q < self.tokenizer.chars.len() && self.tokenizer.chars[q] != '\n'
            invariant
                start <= q <= chars.len(),
                chars == self.chars(),
                end_of_line(chars, q as int) == end_of_line(chars, start as int),
                out@ == chars.subrange(start as int, q as int),
            decreases chars.len() - q,
        {
            let ghost out_before = out@;
            crate::token_automata::push_char(&mut out, self.tokenizer.chars[q]);
            proof {
                assert(out_before.push(chars[q as int]) =~= chars.subrange(
                    start as int,
                    q as int + 1,
                ));
            }
            q = q + 1;
        }
        proof {
            assert(end_of_line(chars, q as int) == q as int);
        }
        out
    }

    /// Build the structured error for a failure at the current position.
    pub fn raise_parsing_error(&self, expected: &str, got: Option<Token>) -> (r: ParseError)
        requires
            self.wf(),
        ensures
            r.line_number == self.current_line_number,
            r.expected@ == expected@,
            opt_token_view(r.got) == opt_token_view(got),
            r.line_text@ == self.chars().subrange(
                start_of_line(self.chars(), self.pointer as int),
                end_of_line(self.chars(), start_of_line(self.chars(), self.pointer as int)),
            ),
    {
        ParseError {
            line_number: self.current_line_number,
            line_text: self.current_line(),
            expected: String::from_str(expected),
            got,
        }
    }
}

} // verus!
