//! The lexer: turns source text into positioned tokens, accumulating lexical
//! errors instead of stopping at the first one.

use crate::helium::errors::HeliumError;
use crate::helium::instructions::{spec_match_instruction, AsmInstruction};
use crate::helium::position::Position;
use crate::helium::text::{
    digit_char, is_digit_char, is_space_char, is_word_char, parse_int, space_char,
    spec_parse_int, str_eq, word_char,
};
use crate::helium::tokens::{Token, TokenKind, ValueKind};
use vstd::prelude::*;

verus! {

// ---------------------------------------------------------------------------
// Where the scans stop: the spec of the lexer's cursor moves.
// ---------------------------------------------------------------------------

/// Where a run of intra-line whitespace starting at `i` ends.
pub open spec fn spec_ws_end(s: Seq<char>, i: int) -> int
    decreases s.len() - i,
{
    if i < 0 || i >= s.len() {
        i
    } else if is_space_char(s[i]) && s[i] != '\n' {
        spec_ws_end(s, i + 1)
    } else {
        i
    }
}

/// Where a run of word characters starting at `i` ends.
pub open spec fn spec_scan_end(s: Seq<char>, i: int) -> int
    decreases s.len() - i,
{
    if i < 0 || i >= s.len() {
        i
    } else if is_word_char(s[i]) {
        spec_scan_end(s, i + 1)
    } else {
        i
    }
}

/// The cursor after eating a comment body from `i`: just past the newline, or
/// the end of the text.
pub open spec fn spec_nl_scan(s: Seq<char>, i: int) -> int
    decreases s.len() - i,
{
    if i < 0 || i >= s.len() {
        i
    } else if s[i] == '\n' {
        i + 1
    } else {
        spec_nl_scan(s, i + 1)
    }
}

/// Whether a newline stands at or after `i`.
pub open spec fn spec_nl_found(s: Seq<char>, i: int) -> bool
    decreases s.len() - i,
{
    if i < 0 || i >= s.len() {
        false
    } else if s[i] == '\n' {
        true
    } else {
        spec_nl_found(s, i + 1)
    }
}

/// A word stops cleanly at the end of the text, at whitespace, or at one of
/// the two separators; any other character is an error.
pub open spec fn spec_word_sep(c: char) -> bool {
    is_space_char(c) || c == ';' || c == ','
}

/// The message of an incompatible-character diagnostic.
pub open spec fn spec_incompat_msg(c: char) -> Seq<char> {
    "Incompatible char: "@ + seq![c]
}


// ---------------------------------------------------------------------------
// The lexer's full specification: what one step consumes and emits, and what
// a whole scan produces. `tokenize`'s contract says the tokens and errors are
// exactly these.
// ---------------------------------------------------------------------------

/// A token's content as the specification speaks of it: kind, payload, span.
pub ghost struct TokenM {
    pub kind: TokenKind,
    pub op: Option<AsmInstruction>,
    pub num: Option<u16>,
    pub word: Option<Seq<char>>,
    pub line: int,
    pub start: int,
    pub len: int,
}

/// A lexical error's content: message and span.
pub ghost struct ErrM {
    pub msg: Seq<char>,
    pub line: int,
    pub start: int,
    pub len: int,
}

/// What one dispatch step does: at most one token, at most one error, and the
/// cursor and counters after it.
pub ghost struct LexStep {
    pub tok: Option<TokenM>,
    pub err: Option<ErrM>,
    pub i: int,
    pub line: int,
    pub col: int,
}

/// The content of an emitted token.
pub open spec fn tok_m(t: Token) -> TokenM {
    TokenM {
        kind: t.kind,
        op: match t.value {
            Some(ValueKind::Instruction(o)) => Some(o),
            _ => None,
        },
        num: match t.value {
            Some(ValueKind::Integer(v)) => Some(v),
            _ => None,
        },
        word: match t.value {
            Some(ValueKind::Word(w)) => Some(w@),
            _ => None,
        },
        line: match t.position {
            Some(p) => p.line as int,
            None => -1,
        },
        start: match t.position {
            Some(p) => p.chr_start as int,
            None => -1,
        },
        len: match t.position {
            Some(p) => p.length as int,
            None => -1,
        },
    }
}

/// The content of a recorded error.
pub open spec fn err_m(e: HeliumError) -> ErrM {
    ErrM {
        msg: e.message@,
        line: e.pos.line as int,
        start: e.pos.chr_start as int,
        len: e.pos.length as int,
    }
}

/// A token without a payload, at the given span.
pub open spec fn plain_tok(kind: TokenKind, line: int, start: int, len: int) -> TokenM {
    TokenM { kind, op: None, num: None, word: None, line, start, len }
}

/// An integer-carrying token.
pub open spec fn num_tok(kind: TokenKind, v: u16, line: int, start: int, len: int) -> TokenM {
    TokenM { kind, op: None, num: Some(v), word: None, line, start, len }
}

/// A word-carrying token.
pub open spec fn word_tok(kind: TokenKind, w: Seq<char>, line: int, start: int, len: int) -> TokenM {
    TokenM { kind, op: None, num: None, word: Some(w), line, start, len }
}

/// What a `-` numeral produces: the word after the sign, negated by the
/// two's-complement rule in whichever base it is written.
pub open spec fn spec_negative(s: Seq<char>, i: int, line: int, col: int) -> LexStep {
    let j = spec_scan_end(s, i);
    if j == s.len() || spec_word_sep(s[j]) {
        let wlen = j - i;
        let colf = col + (j - i);
        match spec_parse_int(s.subrange(i, j), true) {
            Some(v) => LexStep {
                tok: Some(num_tok(TokenKind::Integer, v, line, colf - wlen, wlen)),
                err: None,
                i: j,
                line,
                col: colf,
            },
            None => LexStep {
                tok: None,
                err: Some(ErrM { msg: "ParseInt Error"@, line, start: colf - wlen, len: wlen }),
                i: j,
                line,
                col: colf,
            },
        }
    } else {
        spec_word_failure(s, i, i, line, col)
    }
}

/// The step a word scan ends with when it hits an incompatible character:
/// the character is consumed and reported, nothing is emitted.
pub open spec fn spec_word_failure(s: Seq<char>, wstart: int, i: int, line: int, col: int) -> LexStep {
    let j = spec_scan_end(s, i);
    let colf = col + (j + 1 - i);
    LexStep {
        tok: None,
        err: Some(
            ErrM {
                msg: spec_incompat_msg(s[j]),
                line,
                start: colf - (j - wstart),
                len: j - wstart,
            },
        ),
        i: j + 1,
        line,
        col: colf,
    }
}

/// What a `$` register produces: a number or a name to resolve later.
pub open spec fn spec_register_step(s: Seq<char>, i: int, line: int, col: int) -> LexStep {
    let j = spec_scan_end(s, i);
    if j == s.len() || spec_word_sep(s[j]) {
        let w = s.subrange(i, j);
        let wlen = j - i;
        let colf = col + (j - i);
        if wlen > 0 && is_digit_char(w[0]) {
            match spec_parse_int(w, false) {
                Some(v) => LexStep {
                    tok: Some(num_tok(TokenKind::Register, v, line, colf - wlen, wlen)),
                    err: None,
                    i: j,
                    line,
                    col: colf,
                },
                None => LexStep {
                    tok: None,
                    err: Some(
                        ErrM { msg: "ParseInt Error"@, line, start: colf - wlen, len: wlen },
                    ),
                    i: j,
                    line,
                    col: colf,
                },
            }
        } else {
            LexStep {
                tok: Some(word_tok(TokenKind::Register, w, line, colf - wlen, wlen)),
                err: None,
                i: j,
                line,
                col: colf,
            }
        }
    } else {
        spec_word_failure(s, i, i, line, col)
    }
}

/// What a `#` directive produces; an empty name is an error.
pub open spec fn spec_directive_step(s: Seq<char>, i: int, line: int, col: int) -> LexStep {
    let j = spec_scan_end(s, i);
    if j == s.len() || spec_word_sep(s[j]) {
        let w = s.subrange(i, j);
        let wlen = j - i;
        let colf = col + (j - i);
        if wlen == 0 {
            LexStep {
                tok: None,
                err: Some(
                    ErrM {
                        msg: "Invalid directive name: empty prefix"@,
                        line,
                        start: colf,
                        len: 0,
                    },
                ),
                i: j,
                line,
                col: colf,
            }
        } else {
            LexStep {
                tok: Some(word_tok(TokenKind::Directive, w, line, colf - wlen, wlen)),
                err: None,
                i: j,
                line,
                col: colf,
            }
        }
    } else {
        spec_word_failure(s, i, i, line, col)
    }
}

/// What a `//` comment produces: everything through the end of the line goes,
/// one line-terminator token remains; a lone `/` is also reported.
pub open spec fn spec_comment_step(s: Seq<char>, i: int, line: int, col: int) -> LexStep {
    let has_second = i < s.len() && s[i] == '/';
    let k0 = if i < s.len() {
        i + 1
    } else {
        i
    };
    let found = spec_nl_found(s, k0);
    let line2 = if found {
        line + 1
    } else {
        line
    };
    let col2 = if found {
        0int
    } else {
        col
    };
    LexStep {
        tok: Some(plain_tok(TokenKind::Newline, line2, col2, 0)),
        err: if has_second {
            None
        } else {
            Some(ErrM { msg: "Malformed comment"@, line, start: col, len: 2 })
        },
        i: spec_nl_scan(s, k0),
        line: line2,
        col: col2,
    }
}

/// How a word starting at `i - 1` with first character `c` is classified:
/// mnemonic, numeral, label, `const` keyword, or identifier, in that order.
pub open spec fn spec_any_step(s: Seq<char>, i: int, line: int, col: int, c: char) -> LexStep {
    if !is_word_char(c) {
        LexStep {
            tok: None,
            err: Some(ErrM { msg: spec_incompat_msg(c), line, start: col, len: 0 }),
            i,
            line,
            col,
        }
    } else {
        let j = spec_scan_end(s, i);
        if j == s.len() || spec_word_sep(s[j]) {
            let w = s.subrange(i - 1, j);
            let wlen = j - (i - 1);
            let colf = col + (j - i);
            if spec_match_instruction(w) is Some {
                LexStep {
                    tok: Some(
                        TokenM {
                            kind: TokenKind::Instruction,
                            op: spec_match_instruction(w),
                            num: None,
                            word: None,
                            line,
                            start: colf - wlen,
                            len: wlen,
                        },
                    ),
                    err: None,
                    i: j,
                    line,
                    col: colf,
                }
            } else if is_digit_char(c) {
                match spec_parse_int(w, false) {
                    Some(v) => LexStep {
                        tok: Some(num_tok(TokenKind::Integer, v, line, colf - wlen, wlen)),
                        err: None,
                        i: j,
                        line,
                        col: colf,
                    },
                    None => LexStep {
                        tok: None,
                        err: Some(
                            ErrM { msg: "ParseInt Error"@, line, start: colf - wlen, len: wlen },
                        ),
                        i: j,
                        line,
                        col: colf,
                    },
                }
            } else if w.last() == ':' {
                LexStep {
                    tok: Some(
                        word_tok(
                            TokenKind::Label,
                            w.drop_last(),
                            line,
                            colf - (wlen - 1),
                            wlen - 1,
                        ),
                    ),
                    err: None,
                    i: j,
                    line,
                    col: colf,
                }
            } else if w == "const"@ || w == "CONST"@ {
                LexStep {
                    tok: Some(plain_tok(TokenKind::ConstantDeclaration, line, colf, 0)),
                    err: None,
                    i: j,
                    line,
                    col: colf,
                }
            } else {
                LexStep {
                    tok: Some(word_tok(TokenKind::Identifier, w, line, colf - wlen, wlen)),
                    err: None,
                    i: j,
                    line,
                    col: colf,
                }
            }
        } else {
            spec_word_failure(s, i - 1, i, line, col)
        }
    }
}

/// One full step of the lexer: skip intra-line whitespace, then dispatch on
/// the next character.
pub open spec fn spec_next_step(s: Seq<char>, i0: int, line: int, col: int) -> LexStep {
    let i = spec_ws_end(s, i0);
    let colw = col + (i - i0);
    if i >= s.len() {
        LexStep { tok: None, err: None, i, line, col: colw }
    } else {
        let c = s[i];
        let i1 = i + 1;
        let col1 = colw + 1;
        if c == '\n' {
            LexStep {
                tok: Some(plain_tok(TokenKind::Newline, line + 1, 0, 0)),
                err: None,
                i: i1,
                line: line + 1,
                col: 0,
            }
        } else if c == ';' {
            LexStep {
                tok: Some(plain_tok(TokenKind::SemiColon, line, colw, 1)),
                err: None,
                i: i1,
                line,
                col: col1,
            }
        } else if c == ',' {
            LexStep {
                tok: Some(plain_tok(TokenKind::Comma, line, colw, 1)),
                err: None,
                i: i1,
                line,
                col: col1,
            }
        } else if c == '-' {
            spec_negative(s, i1, line, col1)
        } else if c == '/' {
            spec_comment_step(s, i1, line, col1)
        } else if c == '$' {
            spec_register_step(s, i1, line, col1)
        } else if c == '#' {
            spec_directive_step(s, i1, line, col1)
        } else {
            spec_any_step(s, i1, line, col1, c)
        }
    }
}

/// Emitting at most one token: the old list, or the old list with exactly the
/// specified token appended.
pub open spec fn emits_token(a: Seq<Token>, b: Seq<Token>, tok: Option<TokenM>) -> bool {
    match tok {
        Some(tm) => b.len() == a.len() + 1 && a.is_prefix_of(b) && tok_m(b.last()) == tm,
        None => b == a,
    }
}

/// Recording at most one error.
pub open spec fn emits_err(a: Seq<HeliumError>, b: Seq<HeliumError>, err: Option<ErrM>) -> bool {
    match err {
        Some(em) => b.len() == a.len() + 1 && a.is_prefix_of(b) && err_m(b.last()) == em,
        None => b == a,
    }
}

proof fn lemma_ws_end_bounds(s: Seq<char>, i: int)
    requires
        0 <= i <= s.len(),
    ensures
        i <= spec_ws_end(s, i) <= s.len(),
    decreases s.len() - i,
{
    if i < s.len() && is_space_char(s[i]) && s[i] != '\n' {
        lemma_ws_end_bounds(s, i + 1);
    }
}

proof fn lemma_scan_end_bounds(s: Seq<char>, i: int)
    requires
        0 <= i <= s.len(),
    ensures
        i <= spec_scan_end(s, i) <= s.len(),
    decreases s.len() - i,
{
    if i < s.len() && is_word_char(s[i]) {
        lemma_scan_end_bounds(s, i + 1);
    }
}

proof fn lemma_nl_scan_bounds(s: Seq<char>, i: int)
    requires
        0 <= i <= s.len(),
    ensures
        i <= spec_nl_scan(s, i) <= s.len(),
    decreases s.len() - i,
{
    if i < s.len() && s[i] != '\n' {
        lemma_nl_scan_bounds(s, i + 1);
    }
}

/// Every step from inside the text moves the cursor forward and keeps it
/// inside.
proof fn lemma_step_progress(s: Seq<char>, i0: int, line: int, col: int)
    requires
        0 <= i0 < s.len(),
    ensures
        i0 < spec_next_step(s, i0, line, col).i <= s.len(),
{
    lemma_ws_end_bounds(s, i0);
    let i = spec_ws_end(s, i0);
    if i < s.len() {
        let c = s[i];
        lemma_scan_end_bounds(s, i + 1);
        if c == '/' {
            let k0 = if i + 1 < s.len() {
                i + 2
            } else {
                i + 1
            };
            lemma_nl_scan_bounds(s, k0);
        }
    }
}

/// The whole scan from a state: all tokens and all errors, in order.
pub open spec fn spec_lex(s: Seq<char>, i: int, line: int, col: int) -> (Seq<TokenM>, Seq<ErrM>)
    decreases s.len() - i,
    when 0 <= i
    via spec_lex_decreases
{
    if i >= s.len() {
        (Seq::empty(), Seq::empty())
    } else {
        let st = spec_next_step(s, i, line, col);
        let rest = spec_lex(s, st.i, st.line, st.col);
        (
            (match st.tok {
                Some(t) => seq![t],
                None => Seq::empty(),
            }) + rest.0,
            (match st.err {
                Some(e) => seq![e],
                None => Seq::empty(),
            }) + rest.1,
        )
    }
}

#[via_fn]
proof fn spec_lex_decreases(s: Seq<char>, i: int, line: int, col: int) {
    if 0 <= i < s.len() {
        lemma_step_progress(s, i, line, col);
    }
}

// ---------------------------------------------------------------------------
// The lexer itself.
// ---------------------------------------------------------------------------

pub struct Lexer<'a> {
    pub file_name: &'a str,
    pub src: &'a str,
    /// The character length of `src`.
    pub n: usize,
    /// The cursor: how many characters have been consumed.
    pub i: usize,
    pub tokens: Vec<Token>,
    pub errors: Vec<HeliumError>,
    /// Current line, zero-based.
    pub line: usize,
    /// Current column on that line.
    pub col: usize,
}

impl<'a> Lexer<'a> {
    pub open spec fn spec_src(&self) -> Seq<char> {
        self.src@
    }

    pub open spec fn spec_file(&self) -> Seq<char> {
        self.file_name@
    }

    pub open spec fn spec_cursor(&self) -> int {
        self.i as int
    }

    /// The lexer's housekeeping invariant: the cached length is the source
    /// length, the cursor is inside the text, and the line and column counters
    /// never outrun the cursor.
    pub open spec fn wf(&self) -> bool {
        &&& self.n == self.src@.len()
        &&& self.i <= self.n
        &&& self.col <= self.i
        &&& self.line <= self.i
    }

    /// A token of this file, with its payload and its span.
    pub open spec fn spec_tok(
        &self,
        t: Token,
        kind: TokenKind,
        value: Option<ValueKind>,
        line: usize,
        start: usize,
        len: usize,
    ) -> bool {
        &&& t.kind == kind
        &&& t.value == value
        &&& t.file matches Some(f) && f@ == self.spec_file()
        &&& t.position == Some(Position { line, chr_start: start, length: len })
    }

    /// An emitted token is well formed and names this file.
    pub open spec fn spec_owned_wf(&self, t: Token) -> bool {
        t.wf() && (t.file matches Some(f) && f@ == self.spec_file())
    }

    pub fn new(name: &'a str, file_content: &'a str) -> (l: Lexer<'a>)
        ensures
            l.wf(),
            l.spec_src() == file_content@,
            l.spec_file() == name@,
            l.spec_cursor() == 0,
            l.tokens@ == Seq::<Token>::empty(),
            l.errors@ == Seq::<HeliumError>::empty(),
    {
        let n = file_content.unicode_len();
        Lexer {
            file_name: name,
            src: file_content,
            n,
            i: 0,
            tokens: Vec::new(),
            errors: Vec::new(),
            line: 0,
            col: 0,
        }
    }

    /// Scans the whole text. Returns the full token list when no lexical error
    /// was met, and the full error list otherwise; it never stops early. Every
    /// returned token carries this file's name, a position, and a payload that
    /// matches its kind.
    pub fn tokenize(&mut self) -> (r: Result<Vec<Token>, Vec<HeliumError>>)
        requires
            old(self).wf(),
        ensures
            final(self).wf(),
            final(self).spec_src() == old(self).spec_src(),
            final(self).spec_file() == old(self).spec_file(),
            old(self).tokens@.is_prefix_of(final(self).tokens@),
            old(self).errors@.is_prefix_of(final(self).errors@),
            forall|k: int|
                old(self).tokens@.len() <= k < final(self).tokens@.len() ==> final(self).spec_owned_wf(
                    #[trigger] final(self).tokens@[k],
                ),
            match r {
                Ok(ts) => final(self).errors@.len() == 0 && ts@ =~= final(self).tokens@,
                Err(es) => final(self).errors@.len() > 0 && es@ =~= final(self).errors@,
            },
            ({
                // The scan is exactly what the specification says it is.
                let lexed = spec_lex(
                    old(self).spec_src(),
                    old(self).i as int,
                    old(self).line as int,
                    old(self).col as int,
                );
                &&& final(self).tokens@.map_values(|t: Token| tok_m(t)) =~~= old(
                    self,
                ).tokens@.map_values(|t: Token| tok_m(t)) + lexed.0
                &&& final(self).errors@.map_values(|e: HeliumError| err_m(e)) =~~= old(
                    self,
                ).errors@.map_values(|e: HeliumError| err_m(e)) + lexed.1
            }),
    {
        loop
            invariant
                self.wf(),
                self.spec_src() == old(self).spec_src(),
                self.spec_file() == old(self).spec_file(),
                old(self).tokens@.is_prefix_of(self.tokens@),
                old(self).errors@.is_prefix_of(self.errors@),
                forall|k: int|
                    old(self).tokens@.len() <= k < self.tokens@.len() ==> self.spec_owned_wf(
                        #[trigger] self.tokens@[k],
                    ),
                old(self).tokens@.map_values(|t: Token| tok_m(t)) + spec_lex(
                    old(self).spec_src(),
                    old(self).i as int,
                    old(self).line as int,
                    old(self).col as int,
                ).0 =~~= self.tokens@.map_values(|t: Token| tok_m(t)) + spec_lex(
                    self.src@,
                    self.i as int,
                    self.line as int,
                    self.col as int,
                ).0,
                old(self).errors@.map_values(|e: HeliumError| err_m(e)) + spec_lex(
                    old(self).spec_src(),
                    old(self).i as int,
                    old(self).line as int,
                    old(self).col as int,
                ).1 =~~= self.errors@.map_values(|e: HeliumError| err_m(e)) + spec_lex(
                    self.src@,
                    self.i as int,
                    self.line as int,
                    self.col as int,
                ).1,
            ensures
                self.wf(),
                self.i == self.n,
                self.spec_src() == old(self).spec_src(),
                self.spec_file() == old(self).spec_file(),
                old(self).tokens@.is_prefix_of(self.tokens@),
                old(self).errors@.is_prefix_of(self.errors@),
                forall|k: int|
                    old(self).tokens@.len() <= k < self.tokens@.len() ==> self.spec_owned_wf(
                        #[trigger] self.tokens@[k],
                    ),
                old(self).tokens@.map_values(|t: Token| tok_m(t)) + spec_lex(
                    old(self).spec_src(),
                    old(self).i as int,
                    old(self).line as int,
                    old(self).col as int,
                ).0 =~~= self.tokens@.map_values(|t: Token| tok_m(t)) + spec_lex(
                    self.src@,
                    self.i as int,
                    self.line as int,
                    self.col as int,
                ).0,
                old(self).errors@.map_values(|e: HeliumError| err_m(e)) + spec_lex(
                    old(self).spec_src(),
                    old(self).i as int,
                    old(self).line as int,
                    old(self).col as int,
                ).1 =~~= self.errors@.map_values(|e: HeliumError| err_m(e)) + spec_lex(
                    self.src@,
                    self.i as int,
                    self.line as int,
                    self.col as int,
                ).1,
            decreases self.n - self.i,
        {
            if self.i >= self.n {
                break;
            }
            let ghost tmid = self.tokens@;
            let ghost emid = self.errors@;
            let ghost mi = self.i as int;
            let ghost mline = self.line as int;
            let ghost mcol = self.col as int;
            self.next_token();
            proof {
                assert(old(self).tokens@ =~= self.tokens@.take(old(self).tokens@.len() as int));
                assert(old(self).errors@ =~= self.errors@.take(old(self).errors@.len() as int));
                assert forall|k: int|
                    old(self).tokens@.len() <= k < self.tokens@.len() implies self.spec_owned_wf(
                    #[trigger] self.tokens@[k],
                ) by {
                    if k < tmid.len() {
                        assert(tmid[k] == self.tokens@[k]);
                    }
                }
                // One unfolding of the scan at the step just taken.
                let src = self.src@;
                let st = spec_next_step(src, mi, mline, mcol);
                let rest0 = spec_lex(src, st.i, st.line, st.col).0;
                let rest1 = spec_lex(src, st.i, st.line, st.col).1;
                match st.tok {
                    Some(tm) => {
                        assert(self.tokens@ =~= tmid.push(self.tokens@.last()));
                        assert(self.tokens@.map_values(|t: Token| tok_m(t)) =~~= tmid.map_values(
                            |t: Token| tok_m(t),
                        ).push(tm));
                        assert(tmid.map_values(|t: Token| tok_m(t)).push(tm) + rest0
                            =~~= tmid.map_values(|t: Token| tok_m(t)) + (seq![tm] + rest0));
                    },
                    None => {
                        assert(self.tokens@ =~= tmid);
                        assert(self.tokens@.map_values(|t: Token| tok_m(t)) =~~= tmid.map_values(
                            |t: Token| tok_m(t),
                        ));
                        assert(tmid.map_values(|t: Token| tok_m(t)) + rest0 =~~= tmid.map_values(
                            |t: Token| tok_m(t),
                        ) + (Seq::<TokenM>::empty() + rest0));
                    },
                }
                match st.err {
                    Some(em) => {
                        assert(self.errors@ =~= emid.push(self.errors@.last()));
                        assert(self.errors@.map_values(|e: HeliumError| err_m(e))
                            =~~= emid.map_values(|e: HeliumError| err_m(e)).push(em));
                        assert(emid.map_values(|e: HeliumError| err_m(e)).push(em) + rest1
                            =~~= emid.map_values(|e: HeliumError| err_m(e)) + (seq![em] + rest1));
                    },
                    None => {
                        assert(self.errors@ =~= emid);
                        assert(self.errors@.map_values(|e: HeliumError| err_m(e))
                            =~~= emid.map_values(|e: HeliumError| err_m(e)));
                        assert(emid.map_values(|e: HeliumError| err_m(e)) + rest1
                            =~~= emid.map_values(|e: HeliumError| err_m(e)) + (Seq::<
                            ErrM,
                        >::empty() + rest1));
                    },
                }
            }
        }
        proof {
            let lexed_now = spec_lex(self.src@, self.i as int, self.line as int, self.col as int);
            assert(lexed_now.0 =~~= Seq::<TokenM>::empty());
            assert(lexed_now.1 =~~= Seq::<ErrM>::empty());
            assert(self.tokens@.map_values(|t: Token| tok_m(t)) + lexed_now.0
                =~~= self.tokens@.map_values(|t: Token| tok_m(t)));
            assert(self.errors@.map_values(|e: HeliumError| err_m(e)) + lexed_now.1
                =~~= self.errors@.map_values(|e: HeliumError| err_m(e)));
        }
        if self.errors.len() > 0 {
            Err(clone_errors(&self.errors))
        } else {
            Ok(clone_tokens(&self.tokens))
        }
    }

    /// Skips whitespace that is not a newline.
    fn consume_whitespaces(&mut self)
        requires
            old(self).wf(),
        ensures
            final(self).wf(),
            unchanged_text(final(self), old(self)),
            final(self).tokens@ == old(self).tokens@,
            final(self).errors@ == old(self).errors@,
            final(self).i == spec_ws_end(old(self).src@, old(self).i as int),
            old(self).i <= final(self).i,
            final(self).line == old(self).line,
            final(self).col == old(self).col + (final(self).i - old(self).i),
    {
        loop
            invariant
                self.wf(),
                unchanged_text(self, old(self)),
                self.tokens@ == old(self).tokens@,
                self.errors@ == old(self).errors@,
                old(self).i <= self.i,
                self.line == old(self).line,
                self.col == old(self).col + (self.i - old(self).i),
                spec_ws_end(self.src@, old(self).i as int) == spec_ws_end(
                    self.src@,
                    self.i as int,
                ),
            decreases self.n - self.i,
        {
            if self.i >= self.n {
                return;
            }
            let c = self.src.get_char(self.i);
            if space_char(c) && c != '\n' {
                self.i += 1;
                self.col += 1;
            } else {
                return;
            }
        }
    }

    /// Consumes one statement's worth of characters and emits at most one
    /// token, or records a lexical error. Always makes progress.
    fn next_token(&mut self)
        requires
            old(self).wf(),
        ensures
            final(self).wf(),
            unchanged_text(final(self), old(self)),
            old(self).i < old(self).n ==> final(self).i > old(self).i,
            old(self).i == old(self).n ==> final(self).i == old(self).i,
            old(self).tokens@.is_prefix_of(final(self).tokens@),
            old(self).errors@.is_prefix_of(final(self).errors@),
            forall|k: int|
                old(self).tokens@.len() <= k < final(self).tokens@.len() ==> final(self).spec_owned_wf(
                    #[trigger] final(self).tokens@[k],
                ),
            ({
                let out = spec_next_step(
                    old(self).spec_src(),
                    old(self).i as int,
                    old(self).line as int,
                    old(self).col as int,
                );
                &&& final(self).i == out.i
                &&& final(self).line == out.line
                &&& final(self).col == out.col
                &&& emits_token(old(self).tokens@, final(self).tokens@, out.tok)
                &&& emits_err(old(self).errors@, final(self).errors@, out.err)
            }),
    {
        self.consume_whitespaces();

        if self.i >= self.n {
            return;
        }

        let next = self.src.get_char(self.i);
        self.i += 1;
        self.col += 1;

        if next == '\n' {
            self.line += 1;
            self.col = 0;
            self.new_token(TokenKind::Newline, 0);
        } else if next == ';' {
            self.new_token(TokenKind::SemiColon, 1);
        } else if next == ',' {
            self.new_token(TokenKind::Comma, 1);
        } else if next == '-' {
            self.parse_negative();
        } else if next == '/' {
            self.parse_comment();
        } else if next == '$' {
            self.parse_register();
        } else if next == '#' {
            self.parse_directive();
        } else {
            self.parse_any(next);
        }
    }

    /// Classifies a word: mnemonic, numeral, label, `const` keyword, or plain
    /// identifier, in that order.
    fn parse_any(&mut self, first_char: char)
        requires
            old(self).wf(),
            1 <= old(self).i <= old(self).n,
            old(self).col >= 1,
            first_char == old(self).spec_src()[old(self).i - 1],
            first_char != '\n',
        ensures
            final(self).wf(),
            unchanged_text(final(self), old(self)),
            final(self).i >= old(self).i,
            old(self).tokens@.is_prefix_of(final(self).tokens@),
            old(self).errors@.is_prefix_of(final(self).errors@),
            forall|k: int|
                old(self).tokens@.len() <= k < final(self).tokens@.len() ==> final(self).spec_owned_wf(
                    #[trigger] final(self).tokens@[k],
                ),
            ({
                let out = spec_any_step(
                    old(self).spec_src(),
                    old(self).i as int,
                    old(self).line as int,
                    old(self).col as int,
                    first_char,
                );
                &&& final(self).i == out.i
                &&& final(self).line == out.line
                &&& final(self).col == out.col
                &&& emits_token(old(self).tokens@, final(self).tokens@, out.tok)
                &&& emits_err(old(self).errors@, final(self).errors@, out.err)
            }),
    {
        let word = match self.parse_word(Some(first_char)) {
            Ok(w) => w,
            Err(e) => {
                self.errors.push(e);
                return;
            },
        };

        let wlen = word.as_str().unicode_len();
        if let Some(ins) = AsmInstruction::match_instruction(word.as_str()) {
            self.new_token_with_value(TokenKind::Instruction, ValueKind::Instruction(ins), wlen);
        } else if digit_char(first_char) {
            let num = match parse_int(word.as_str(), false) {
                Some(v) => v,
                None => {
                    let e = HeliumError::new(
                        String::from_str("ParseInt Error"),
                        Position::new(self.line, self.col - wlen, wlen),
                    );
                    self.errors.push(e);
                    return;
                },
            };
            self.new_token_with_value(TokenKind::Integer, ValueKind::Integer(num), wlen);
        } else if wlen > 0 && word.as_str().get_char(wlen - 1) == ':' {
            let stripped = word.as_str().substring_char(0, wlen - 1);
            let name = String::from_str(stripped);
            self.new_token_with_value(TokenKind::Label, ValueKind::Word(name), wlen - 1);
        } else if str_eq(word.as_str(), "const") || str_eq(word.as_str(), "CONST") {
            self.new_token(TokenKind::ConstantDeclaration, 0);
        } else {
            self.new_token_with_value(TokenKind::Identifier, ValueKind::Word(word), wlen);
        }
    }

    /// A `#` directive: the word after the marker names it; an empty name is
    /// an error.
    fn parse_directive(&mut self)
        requires
            old(self).wf(),
            1 <= old(self).i <= old(self).n,
            old(self).col >= 1,
        ensures
            final(self).wf(),
            unchanged_text(final(self), old(self)),
            final(self).i >= old(self).i,
            old(self).tokens@.is_prefix_of(final(self).tokens@),
            old(self).errors@.is_prefix_of(final(self).errors@),
            forall|k: int|
                old(self).tokens@.len() <= k < final(self).tokens@.len() ==> final(self).spec_owned_wf(
                    #[trigger] final(self).tokens@[k],
                ),
            ({
                let out = spec_directive_step(
                    old(self).spec_src(),
                    old(self).i as int,
                    old(self).line as int,
                    old(self).col as int,
                );
                &&& final(self).i == out.i
                &&& final(self).line == out.line
                &&& final(self).col == out.col
                &&& emits_token(old(self).tokens@, final(self).tokens@, out.tok)
                &&& emits_err(old(self).errors@, final(self).errors@, out.err)
            }),
    {
        proof {
            lemma_scan_end_bounds(self.src@, self.i as int);
        }
        let word = match self.parse_word(None) {
            Ok(w) => w,
            Err(e) => {
                self.errors.push(e);
                return;
            },
        };
        let wlen = word.as_str().unicode_len();
        if wlen == 0 {
            let e = HeliumError::new(
                String::from_str("Invalid directive name: empty prefix"),
                Position::new(self.line, self.col, 0),
            );
            self.errors.push(e);
            return;
        }
        self.new_token_with_value(TokenKind::Directive, ValueKind::Word(word), wlen);
    }

    /// A `$` register: a word starting with a digit is a register number, any
    /// other word a register name to resolve later. An empty word yields a
    /// register token with an empty name (a no-panic total reading of `$`
    /// followed by nothing).
    fn parse_register(&mut self)
        requires
            old(self).wf(),
            1 <= old(self).i <= old(self).n,
            old(self).col >= 1,
        ensures
            final(self).wf(),
            unchanged_text(final(self), old(self)),
            final(self).i >= old(self).i,
            old(self).tokens@.is_prefix_of(final(self).tokens@),
            old(self).errors@.is_prefix_of(final(self).errors@),
            forall|k: int|
                old(self).tokens@.len() <= k < final(self).tokens@.len() ==> final(self).spec_owned_wf(
                    #[trigger] final(self).tokens@[k],
                ),
            ({
                let out = spec_register_step(
                    old(self).spec_src(),
                    old(self).i as int,
                    old(self).line as int,
                    old(self).col as int,
                );
                &&& final(self).i == out.i
                &&& final(self).line == out.line
                &&& final(self).col == out.col
                &&& emits_token(old(self).tokens@, final(self).tokens@, out.tok)
                &&& emits_err(old(self).errors@, final(self).errors@, out.err)
            }),
    {
        proof {
            lemma_scan_end_bounds(self.src@, self.i as int);
        }
        let word = match self.parse_word(None) {
            Ok(w) => w,
            Err(e) => {
                self.errors.push(e);
                return;
            },
        };
        let wlen = word.as_str().unicode_len();
        if wlen > 0 && digit_char(word.as_str().get_char(0)) {
            let num = match parse_int(word.as_str(), false) {
                Some(v) => v,
                None => {
                    let e = HeliumError::new(
                        String::from_str("ParseInt Error"),
                        Position::new(self.line, self.col - wlen, wlen),
                    );
                    self.errors.push(e);
                    return;
                },
            };
            self.new_token_with_value(TokenKind::Register, ValueKind::Integer(num), wlen);
        } else {
            self.new_token_with_value(TokenKind::Register, ValueKind::Word(word), wlen);
        }
    }

    /// A `//` comment: consumed through the end of the line, which still emits
    /// one line-terminator token. A lone `/` is a malformed comment.
    fn parse_comment(&mut self)
        requires
            old(self).wf(),
            1 <= old(self).i <= old(self).n,
        ensures
            final(self).wf(),
            unchanged_text(final(self), old(self)),
            final(self).i >= old(self).i,
            old(self).tokens@.is_prefix_of(final(self).tokens@),
            old(self).errors@.is_prefix_of(final(self).errors@),
            forall|k: int|
                old(self).tokens@.len() <= k < final(self).tokens@.len() ==> final(self).spec_owned_wf(
                    #[trigger] final(self).tokens@[k],
                ),
            ({
                let out = spec_comment_step(
                    old(self).spec_src(),
                    old(self).i as int,
                    old(self).line as int,
                    old(self).col as int,
                );
                &&& final(self).i == out.i
                &&& final(self).line == out.line
                &&& final(self).col == out.col
                &&& emits_token(old(self).tokens@, final(self).tokens@, out.tok)
                &&& emits_err(old(self).errors@, final(self).errors@, out.err)
            }),
    {
        let has_slash = self.i < self.n && self.src.get_char(self.i) == '/';
        if !has_slash {
            let e = HeliumError::new(
                String::from_str("Malformed comment"),
                Position::new(self.line, self.col, 2),
            );
            self.errors.push(e);
        }
        if self.i < self.n {
            self.i += 1;
        }
        let ghost errs0 = self.errors@;
        let ghost k0: int = if old(self).i < old(self).n {
            old(self).i + 1
        } else {
            old(self).i as int
        };
        loop
            invariant_except_break
                self.line == old(self).line,
                self.col == old(self).col,
                spec_nl_scan(self.src@, self.i as int) == spec_nl_scan(old(self).spec_src(), k0),
                spec_nl_found(self.src@, self.i as int) == spec_nl_found(old(self).spec_src(), k0),
            invariant
                self.wf(),
                unchanged_text(self, old(self)),
                self.tokens@ == old(self).tokens@,
                self.errors@ == errs0,
                old(self).i <= self.i <= self.n,
            ensures
                self.wf(),
                unchanged_text(self, old(self)),
                self.tokens@ == old(self).tokens@,
                self.errors@ == errs0,
                old(self).i <= self.i <= self.n,
                self.i == spec_nl_scan(old(self).spec_src(), k0),
                spec_nl_found(old(self).spec_src(), k0) ==> self.line == old(self).line + 1
                    && self.col == 0,
                !spec_nl_found(old(self).spec_src(), k0) ==> self.line == old(self).line
                    && self.col == old(self).col,
            decreases self.n - self.i,
        {
            if self.i >= self.n {
                break;
            }
            let ghost ip = self.i as int;
            let ch = self.src.get_char(self.i);
            self.i += 1;
            if ch == '\n' {
                proof {
                    assert(spec_nl_scan(self.src@, ip) == ip + 1);
                    assert(spec_nl_found(self.src@, ip));
                }
                self.line += 1;
                self.col = 0;
                break;
            }
        }
        self.new_token(TokenKind::Newline, 0);
    }

    /// A `-` numeral: the word after the sign, negated by the two's-complement
    /// rule, whatever its base.
    fn parse_negative(&mut self)
        requires
            old(self).wf(),
            1 <= old(self).i <= old(self).n,
            old(self).col >= 1,
        ensures
            final(self).wf(),
            unchanged_text(final(self), old(self)),
            final(self).i >= old(self).i,
            old(self).tokens@.is_prefix_of(final(self).tokens@),
            old(self).errors@.is_prefix_of(final(self).errors@),
            forall|k: int|
                old(self).tokens@.len() <= k < final(self).tokens@.len() ==> final(self).spec_owned_wf(
                    #[trigger] final(self).tokens@[k],
                ),
            ({
                let out = spec_negative(
                    old(self).spec_src(),
                    old(self).i as int,
                    old(self).line as int,
                    old(self).col as int,
                );
                &&& final(self).i == out.i
                &&& final(self).line == out.line
                &&& final(self).col == out.col
                &&& emits_token(old(self).tokens@, final(self).tokens@, out.tok)
                &&& emits_err(old(self).errors@, final(self).errors@, out.err)
            }),
    {
        proof {
            lemma_scan_end_bounds(self.src@, self.i as int);
        }
        let word = match self.parse_word(None) {
            Ok(w) => w,
            Err(e) => {
                self.errors.push(e);
                return;
            },
        };
        let wlen = word.as_str().unicode_len();
        let num = match parse_int(word.as_str(), true) {
            Some(v) => v,
            None => {
                let e = HeliumError::new(
                    String::from_str("ParseInt Error"),
                    Position::new(self.line, self.col - wlen, wlen),
                );
                self.errors.push(e);
                return;
            },
        };
        self.new_token_with_value(TokenKind::Integer, ValueKind::Integer(num), wlen);
    }

    fn new_token(&mut self, kind: TokenKind, len: usize)
        requires
            old(self).wf(),
            len <= old(self).col,
        ensures
            final(self).wf(),
            unchanged_text(final(self), old(self)),
            unchanged_cursor(final(self), old(self)),
            final(self).errors@ == old(self).errors@,
            final(self).tokens@ == old(self).tokens@.push(final(self).tokens@.last()),
            final(self).spec_tok(
                final(self).tokens@.last(),
                kind,
                None,
                old(self).line,
                (old(self).col - len) as usize,
                len,
            ),
    {
        let t = Token::from_kind(kind).set_file_name(String::from_str(self.file_name)).set_position(
            self.line,
            self.col - len,
            len,
        );
        self.tokens.push(t);
    }

    fn new_token_with_value(&mut self, kind: TokenKind, value: ValueKind, len: usize)
        requires
            old(self).wf(),
            len <= old(self).col,
            match kind {
                TokenKind::Identifier | TokenKind::Label | TokenKind::Directive => value matches ValueKind::Word(
                    _,
                ),
                TokenKind::Integer => value matches ValueKind::Integer(_),
                TokenKind::Register => value matches ValueKind::Integer(_) || value matches ValueKind::Word(
                    _,
                ),
                TokenKind::Instruction => value matches ValueKind::Instruction(_),
                _ => true,
            },
        ensures
            final(self).wf(),
            unchanged_text(final(self), old(self)),
            unchanged_cursor(final(self), old(self)),
            final(self).errors@ == old(self).errors@,
            final(self).tokens@ == old(self).tokens@.push(final(self).tokens@.last()),
            final(self).spec_tok(
                final(self).tokens@.last(),
                kind,
                Some(value),
                old(self).line,
                (old(self).col - len) as usize,
                len,
            ),
    {
        let t = Token::with_value(kind, value).set_file_name(
            String::from_str(self.file_name),
        ).set_position(self.line, self.col - len, len);
        self.tokens.push(t);
    }

    /// Reads a word: the run of word characters under the cursor, the already
    /// consumed `start_char` (if any) included. A character that is neither a
    /// word character nor a separator is consumed and reported.
    fn parse_word(&mut self, start_char: Option<char>) -> (r: Result<String, HeliumError>)
        requires
            old(self).wf(),
            start_char matches Some(c) ==> 1 <= old(self).i && c == old(self).spec_src()[old(
                self,
            ).i - 1] && old(self).col >= 1 && c != '\n',
        ensures
            final(self).wf(),
            unchanged_text(final(self), old(self)),
            final(self).tokens@ == old(self).tokens@,
            final(self).errors@ == old(self).errors@,
            final(self).line == old(self).line,
            old(self).i <= final(self).i,
            old(self).col <= final(self).col,
            ({
                let s = old(self).spec_src();
                let i0 = old(self).i as int;
                let wstart = if start_char is Some {
                    i0 - 1
                } else {
                    i0
                };
                let j = spec_scan_end(s, i0);
                let bad_start = start_char matches Some(c) && !is_word_char(c);
                &&& (start_char matches Some(c) ==> (!is_word_char(c) ==> {
                    // The word's own first character is already bad.
                    &&& final(self).i == old(self).i
                    &&& final(self).col == old(self).col
                    &&& (r matches Err(e) && e.message@ == spec_incompat_msg(c) && e.pos
                        == Position { line: old(self).line, chr_start: old(self).col, length: 0 })
                }))
                &&& (!bad_start && (j == s.len() || spec_word_sep(s[j])) ==> {
                    &&& final(self).i == j
                    &&& final(self).col == old(self).col + (j - i0)
                    &&& (r matches Ok(w) && w@ == s.subrange(wstart, j))
                })
                &&& (!bad_start && !(j == s.len() || spec_word_sep(s[j])) ==> {
                    // An incompatible character is consumed and reported.
                    &&& final(self).i == j + 1
                    &&& final(self).col == old(self).col + (j + 1 - i0)
                    &&& (r matches Err(e) && e.message@ == spec_incompat_msg(s[j]) && e.pos
                        == Position {
                        line: old(self).line,
                        chr_start: (old(self).col + (j + 1 - i0) - (j - wstart)) as usize,
                        length: (j - wstart) as usize,
                    })
                })
            }),
    {
        let ghost s = self.src@;
        let wstart: usize = match start_char {
            Some(c) => {
                if !word_char(c) {
                    let msg = String::from_str("Incompatible char: ").concat(
                        self.src.substring_char(self.i - 1, self.i),
                    );
                    proof {
                        assert(s.subrange(old(self).i - 1, old(self).i as int) =~= seq![c]);
                    }
                    return Err(HeliumError::new(msg, Position::new(self.line, self.col, 0)));
                }
                self.i - 1
            },
            None => self.i,
        };

        loop
            invariant
                self.wf(),
                unchanged_text(self, old(self)),
                self.tokens@ == old(self).tokens@,
                self.errors@ == old(self).errors@,
                self.line == old(self).line,
                old(self).i <= self.i,
                wstart <= self.i,
                start_char is Some ==> wstart + 1 == old(self).i,
                start_char is None ==> wstart == old(self).i,
                start_char matches Some(c) ==> is_word_char(c),
                self.col == old(self).col + (self.i - old(self).i),
                spec_scan_end(s, old(self).i as int) == spec_scan_end(s, self.i as int),
                s == self.src@,
            ensures
                self.wf(),
                unchanged_text(self, old(self)),
                self.tokens@ == old(self).tokens@,
                self.errors@ == old(self).errors@,
                self.line == old(self).line,
                old(self).i <= self.i,
                wstart <= self.i,
                start_char is Some ==> wstart + 1 == old(self).i,
                start_char is None ==> wstart == old(self).i,
                self.col == old(self).col + (self.i - old(self).i),
                s == self.src@,
                self.i == spec_scan_end(s, old(self).i as int),
                self.i == self.n || spec_word_sep(s[self.i as int]),
            decreases self.n - self.i,
        {
            if self.i >= self.n {
                break;
            }
            let ch = self.src.get_char(self.i);
            if space_char(ch) || ch == ';' || ch == ',' {
                break;
            }
            if word_char(ch) {
                self.i += 1;
                self.col += 1;
            } else {
                self.i += 1;
                self.col += 1;
                let msg = String::from_str("Incompatible char: ").concat(
                    self.src.substring_char(self.i - 1, self.i),
                );
                let wlen = self.i - 1 - wstart;
                proof {
                    assert(s.subrange(self.i - 1, self.i as int) =~= seq![s[self.i - 1]]);
                }
                return Err(
                    HeliumError::new(msg, Position::new(self.line, self.col - wlen, wlen)),
                );
            }
        }
        let sub = self.src.substring_char(wstart, self.i);
        Ok(String::from_str(sub))
    }
}

/// The source text and file name never change while lexing.
pub open spec fn unchanged_text<'a>(l: &Lexer<'a>, o: &Lexer<'a>) -> bool {
    l.spec_src() == o.spec_src() && l.spec_file() == o.spec_file()
}

/// The cursor and the counters stand still.
pub open spec fn unchanged_cursor<'a>(l: &Lexer<'a>, o: &Lexer<'a>) -> bool {
    l.spec_cursor() == o.spec_cursor() && l.line == o.line && l.col == o.col
}

fn clone_tokens(v: &Vec<Token>) -> (r: Vec<Token>)
    ensures
        r@ =~= v@,
{
    let mut r: Vec<Token> = Vec::new();
    let mut k: usize = 0;
    while k < v.len()
        invariant
            k <= v@.len(),
            r@ =~= v@.take(k as int),
        decreases v@.len() - k,
    {
        r.push(v[k].clone());
        k += 1;
    }
    r
}

fn clone_errors(v: &Vec<HeliumError>) -> (r: Vec<HeliumError>)
    ensures
        r@ =~= v@,
{
    let mut r: Vec<HeliumError> = Vec::new();
    let mut k: usize = 0;
    while k < v.len()
        invariant
            k <= v@.len(),
            r@ =~= v@.take(k as int),
        decreases v@.len() - k,
    {
        r.push(v[k].clone());
        k += 1;
    }
    r
}

} // verus!
