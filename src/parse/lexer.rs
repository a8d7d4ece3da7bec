use vstd::prelude::*;
use vstd::string::StringSliceAdditionalSpecFns;
use vstd::utf8::*;

use crate::error::Error;

verus! {

broadcast use vstd::utf8::encode_utf8_valid_utf8;

/// The kinds of tokens of the language. Keywords match without regard to ASCII case.
#[derive(Debug, PartialEq, Eq, Clone, Copy, Structural)]
pub enum TokenKind {
    Identifier,
    Event,
    Sched,
    NewTask,
    Exit,
    Shutdown,
    Stop,
    Kernel,
    Events,
    Scheduler,
    Fifo,
    Random,
    LBrace,
    RBrace,
    LBracket,
    RBracket,
    Comma,
    Eq,
}

/// A token: its kind and the half-open byte range of its text in `source`.
#[derive(Debug)]
pub struct Token<'a> {
    pub source: &'a str,
    pub kind: TokenKind,
    pub span: std::ops::Range<usize>,
}

/// What a token is in spec terms: kind, start, end.
pub type TokenSpec = (TokenKind, int, int);

pub open spec fn is_space(c: u8) -> bool {
    c == 0x20 || c == 0x09 || c == 0x0d || c == 0x0a || c == 0x0c
}

pub open spec fn is_ident_start(c: u8) -> bool {
    c == 0x5f || (0x61 <= c <= 0x7a) || (0x41 <= c <= 0x5a)
}

pub open spec fn is_ident_char(c: u8) -> bool {
    is_ident_start(c) || (0x30 <= c <= 0x39)
}

/// The kind of a one-byte punctuation token, if `c` is one.
pub open spec fn punct_kind(c: u8) -> Option<TokenKind> {
    if c == 0x7b {
        Some(TokenKind::LBrace)
    } else if c == 0x7d {
        Some(TokenKind::RBrace)
    } else if c == 0x5b {
        Some(TokenKind::LBracket)
    } else if c == 0x5d {
        Some(TokenKind::RBracket)
    } else if c == 0x2c {
        Some(TokenKind::Comma)
    } else if c == 0x3d {
        Some(TokenKind::Eq)
    } else {
        None
    }
}

/// End of the run of identifier bytes that starts at `i`.
pub open spec fn ident_end(b: Seq<u8>, i: int) -> int
    decreases b.len() - i,
{
    if 0 <= i < b.len() && is_ident_char(b[i]) {
        ident_end(b, i + 1)
    } else {
        i
    }
}

/// End of a line comment whose body starts at `i`: the next newline or form feed.
pub open spec fn comment_end(b: Seq<u8>, i: int) -> int
    decreases b.len() - i,
{
    if 0 <= i < b.len() && b[i] != 0x0a && b[i] != 0x0c {
        comment_end(b, i + 1)
    } else {
        i
    }
}

pub open spec fn lower_byte(c: u8) -> u8 {
    if 0x41 <= c <= 0x5a {
        (c + 32) as u8
    } else {
        c
    }
}

pub open spec fn lower(w: Seq<u8>) -> Seq<u8> {
    w.map_values(|c: u8| lower_byte(c))
}

/// The kind of a word made of identifier bytes: a keyword when it equals one
/// without regard to case, otherwise an identifier.
pub open spec fn word_kind(w: Seq<u8>) -> TokenKind {
    let l = lower(w);
    if l == seq![0x65u8, 0x76, 0x65, 0x6e, 0x74] {
        TokenKind::Event
    } else if l == seq![0x73u8, 0x63, 0x68, 0x65, 0x64] {
        TokenKind::Sched
    } else if l == seq![0x6eu8, 0x65, 0x77, 0x74, 0x61, 0x73, 0x6b] {
        TokenKind::NewTask
    } else if l == seq![0x65u8, 0x78, 0x69, 0x74] {
        TokenKind::Exit
    } else if l == seq![0x73u8, 0x68, 0x75, 0x74, 0x64, 0x6f, 0x77, 0x6e] {
        TokenKind::Shutdown
    } else if l == seq![0x73u8, 0x74, 0x6f, 0x70] {
        TokenKind::Stop
    } else if l == seq![0x6bu8, 0x65, 0x72, 0x6e, 0x65, 0x6c] {
        TokenKind::Kernel
    } else if l == seq![0x65u8, 0x76, 0x65, 0x6e, 0x74, 0x73] {
        TokenKind::Events
    } else if l == seq![0x73u8, 0x63, 0x68, 0x65, 0x64, 0x75, 0x6c, 0x65, 0x72] {
        TokenKind::Scheduler
    } else if l == seq![0x66u8, 0x69, 0x66, 0x6f] {
        TokenKind::Fifo
    } else if l == seq![0x72u8, 0x61, 0x6e, 0x64, 0x6f, 0x6d] {
        TokenKind::Random
    } else {
        TokenKind::Identifier
    }
}

pub open spec fn prepend(p: Seq<TokenSpec>, r: Option<Seq<TokenSpec>>) -> Option<Seq<TokenSpec>> {
    match r {
        Some(t) => Some(p + t),
        None => None,
    }
}

/// The tokens of `b` from byte `i` on, or `None` where some byte starts no token.
/// Whitespace and `#` line comments separate tokens; a word runs as far as
/// identifier bytes go, so a keyword never matches a prefix of a longer word.
pub open spec fn lex_from(b: Seq<u8>, i: int) -> Option<Seq<TokenSpec>>
    decreases b.len() - i,
{
    if i < 0 || i >= b.len() {
        Some(Seq::empty())
    } else if is_space(b[i]) {
        lex_from(b, i + 1)
    } else if b[i] == 0x23 {
        let j = comment_end(b, i + 1);
        if i < j <= b.len() {
            lex_from(b, j)
        } else {
            None
        }
    } else if punct_kind(b[i]) is Some {
        prepend(seq![(punct_kind(b[i])->0, i, i + 1)], lex_from(b, i + 1))
    } else if is_ident_start(b[i]) {
        let j = ident_end(b, i + 1);
        if i < j <= b.len() {
            prepend(seq![(word_kind(b.subrange(i, j)), i, j)], lex_from(b, j))
        } else {
            None
        }
    } else {
        None
    }
}

/// The tokens of a whole text.
pub open spec fn lex(b: Seq<u8>) -> Option<Seq<TokenSpec>> {
    lex_from(b, 0)
}

proof fn lemma_ident_end_bounds(b: Seq<u8>, i: int)
    requires
        0 <= i <= b.len(),
    ensures
        i <= ident_end(b, i) <= b.len(),
        forall|k: int| i <= k < ident_end(b, i) ==> is_ident_char(b[k]),
        ident_end(b, i) < b.len() ==> !is_ident_char(b[ident_end(b, i)]),
    decreases b.len() - i,
{
    if i < b.len() && is_ident_char(b[i]) {
        lemma_ident_end_bounds(b, i + 1);
    }
}

proof fn lemma_comment_end_bounds(b: Seq<u8>, i: int)
    requires
        0 <= i <= b.len(),
    ensures
        i <= comment_end(b, i) <= b.len(),
    decreases b.len() - i,
{
    if i < b.len() && b[i] != 0x0a && b[i] != 0x0c {
        lemma_comment_end_bounds(b, i + 1);
    }
}

/// In valid UTF-8, the byte after an ASCII byte starts a character.
proof fn lemma_after_ascii(b: Seq<u8>, j: int)
    requires
        valid_utf8(b),
        0 < j < b.len(),
        b[j - 1] < 0x80,
    ensures
        !is_continuation_byte(b[j]),
{
    is_char_boundary_iff_not_is_continuation_byte(b, j - 1);
    valid_utf8_split(b, j - 1);
    let rest = b.subrange(j - 1, b.len() as int);
    assert(rest[0] == b[j - 1]);
    assert(pop_first_scalar(rest) =~= b.subrange(j, b.len() as int));
    let tail = b.subrange(j, b.len() as int);
    is_char_boundary_start_end_of_seq(tail);
    is_char_boundary_iff_not_is_continuation_byte(tail, 0);
}

/// A token's range falls on character boundaries of its source.
pub open spec fn on_boundaries(source: &str, start: int, end: int) -> bool {
    &&& 0 <= start <= end <= source.spec_bytes().len()
    &&& is_char_boundary(source.spec_bytes(), start)
    &&& is_char_boundary(source.spec_bytes(), end)
}

impl<'a> Token<'a> {
    pub open spec fn spec_view(&self) -> TokenSpec {
        (self.kind, self.span.start as int, self.span.end as int)
    }

    pub open spec fn wf(&self) -> bool {
        on_boundaries(self.source, self.span.start as int, self.span.end as int)
    }

    /// The bytes of the token's text.
    pub open spec fn text_bytes(&self) -> Seq<u8> {
        self.source.spec_bytes().subrange(self.span.start as int, self.span.end as int)
    }

    /// The characters of the token's text.
    pub open spec fn text_chars(&self) -> Seq<char> {
        decode_utf8(self.text_bytes())
    }

    /// The token's text, a slice of its source.
    pub fn text(&self) -> (r: &'a str)
        requires
            self.wf(),
        ensures
            r.spec_bytes() == self.text_bytes(),
            r@ == self.text_chars(),
    {
        let (_, tail) = self.source.split_at(self.span.start);
        proof {
            let b = self.source.spec_bytes();
            let s = self.span.start as int;
            let e = self.span.end as int;
            valid_utf8_split(b, s);
            let t = b.subrange(s, b.len() as int);
            assert(tail.spec_bytes() == t);
            if e < b.len() {
                is_char_boundary_iff_not_is_continuation_byte(b, e);
                if e - s > 0 {
                    is_char_boundary_iff_not_is_continuation_byte(t, e - s);
                } else {
                    is_char_boundary_start_end_of_seq(t);
                }
                assert(t[e - s] == b[e]);
            } else {
                is_char_boundary_start_end_of_seq(t);
                assert(t.len() == e - s);
            }
        }
        let (head, _) = tail.split_at(self.span.end - self.span.start);
        proof {
            assert(head.spec_bytes() =~= self.text_bytes());
            encode_utf8_decode_utf8(head@);
        }
        head
    }
}

impl TokenKind {
    pub open spec fn spec_is_action(&self) -> bool {
        match *self {
            TokenKind::Sched | TokenKind::Stop | TokenKind::Shutdown | TokenKind::Exit
            | TokenKind::NewTask => true,
            _ => false,
        }
    }

    /// Whether the kind is the keyword of a built-in action.
    #[verifier::when_used_as_spec(spec_is_action)]
    pub fn is_action(&self) -> (r: bool)
        ensures
            r == self.spec_is_action(),
    {
        match *self {
            TokenKind::Sched | TokenKind::Stop | TokenKind::Shutdown | TokenKind::Exit
            | TokenKind::NewTask => true,
            _ => false,
        }
    }
}


fn to_lower(c: u8) -> (r: u8)
    ensures
        r == lower_byte(c),
{
    if 0x41 <= c && c <= 0x5a {
        c + 32
    } else {
        c
    }
}

/// Whether bytes `start..end` of `b` equal `kw` without regard to ASCII case.
fn word_is(b: &[u8], start: usize, end: usize, kw: &Vec<u8>) -> (r: bool)
    requires
        start <= end <= b@.len(),
    ensures
        r == (lower(b@.subrange(start as int, end as int)) == kw@),
{
    let ghost w = lower(b@.subrange(start as int, end as int));
    if end - start != kw.len() {
        assert(w.len() != kw@.len());
        return false;
    }
    let mut k: usize = 0;
    while k < kw.len()
        invariant
            start <= end <= b@.len(),
            end - start == kw@.len(),
            w == lower(b@.subrange(start as int, end as int)),
            0 <= k <= kw@.len(),
            forall|m: int| 0 <= m < k ==> w[m] == kw@[m],
        decreases kw@.len() - k,
    {
        if to_lower(b[start + k]) != kw[k] {
            assert(w[k as int] != kw@[k as int]);
            return false;
        }
        k = k + 1;
    }
    assert(w =~= kw@);
    true
}

/// The kind of the word at bytes `start..end` of `b`.
fn word_kind_of(b: &[u8], start: usize, end: usize) -> (r: TokenKind)
    requires
        start <= end <= b@.len(),
    ensures
        r == word_kind(b@.subrange(start as int, end as int)),
{
    let ghost l = lower(b@.subrange(start as int, end as int));
    if word_is(b, start, end, &vec![0x65u8, 0x76, 0x65, 0x6e, 0x74]) {
        TokenKind::Event
    } else if word_is(b, start, end, &vec![0x73u8, 0x63, 0x68, 0x65, 0x64]) {
        TokenKind::Sched
    } else if word_is(b, start, end, &vec![0x6eu8, 0x65, 0x77, 0x74, 0x61, 0x73, 0x6b]) {
        TokenKind::NewTask
    } else if word_is(b, start, end, &vec![0x65u8, 0x78, 0x69, 0x74]) {
        TokenKind::Exit
    } else if word_is(b, start, end, &vec![0x73u8, 0x68, 0x75, 0x74, 0x64, 0x6f, 0x77, 0x6e]) {
        TokenKind::Shutdown
    } else if word_is(b, start, end, &vec![0x73u8, 0x74, 0x6f, 0x70]) {
        TokenKind::Stop
    } else if word_is(b, start, end, &vec![0x6bu8, 0x65, 0x72, 0x6e, 0x65, 0x6c]) {
        TokenKind::Kernel
    } else if word_is(b, start, end, &vec![0x65u8, 0x76, 0x65, 0x6e, 0x74, 0x73]) {
        TokenKind::Events
    } else if word_is(
        b,
        start,
        end,
        &vec![0x73u8, 0x63, 0x68, 0x65, 0x64, 0x75, 0x6c, 0x65, 0x72],
    ) {
        TokenKind::Scheduler
    } else if word_is(b, start, end, &vec![0x66u8, 0x69, 0x66, 0x6f]) {
        TokenKind::Fifo
    } else if word_is(b, start, end, &vec![0x72u8, 0x61, 0x6e, 0x64, 0x6f, 0x6d]) {
        TokenKind::Random
    } else {
        TokenKind::Identifier
    }
}

fn is_ident_char_exec(c: u8) -> (r: bool)
    ensures
        r == is_ident_char(c),
{
    c == 0x5f || (0x61 <= c && c <= 0x7a) || (0x41 <= c && c <= 0x5a) || (0x30 <= c && c <= 0x39)
}

fn scan_ident(b: &[u8], i: usize) -> (j: usize)
    requires
        i <= b@.len(),
    ensures
        j == ident_end(b@, i as int),
{
    let mut j = i;
    while j < b.len() && is_ident_char_exec(b[j])
        invariant
            i <= j <= b@.len(),
            ident_end(b@, i as int) == ident_end(b@, j as int),
        decreases b@.len() - j,
    {
        j = j + 1;
    }
    j
}

fn scan_comment(b: &[u8], i: usize) -> (j: usize)
    requires
        i <= b@.len(),
    ensures
        j == comment_end(b@, i as int),
{
    let mut j = i;
    while j < b.len() && b[j] != 0x0a && b[j] != 0x0c
        invariant
            i <= j <= b@.len(),
            comment_end(b@, i as int) == comment_end(b@, j as int),
        decreases b@.len() - j,
    {
        j = j + 1;
    }
    j
}

fn punct_kind_of(c: u8) -> (r: Option<TokenKind>)
    ensures
        r == punct_kind(c),
{
    if c == 0x7b {
        Some(TokenKind::LBrace)
    } else if c == 0x7d {
        Some(TokenKind::RBrace)
    } else if c == 0x5b {
        Some(TokenKind::LBracket)
    } else if c == 0x5d {
        Some(TokenKind::RBracket)
    } else if c == 0x2c {
        Some(TokenKind::Comma)
    } else if c == 0x3d {
        Some(TokenKind::Eq)
    } else {
        None
    }
}

/// The tokens that spec tokens `ts` stand for in `src`.
pub open spec fn spell<'a>(src: &'a str, ts: Seq<TokenSpec>) -> Seq<Token<'a>> {
    ts.map_values(
        |t: TokenSpec|
            Token { source: src, kind: t.0, span: std::ops::Range { start: t.1 as usize, end: t.2 as usize } },
    )
}

pub open spec fn token_views<'a>(ts: Seq<Token<'a>>) -> Seq<TokenSpec> {
    ts.map_values(|t: Token<'a>| t.spec_view())
}

/// Splits `kml` into tokens, in source order.
pub fn tokenize_kml<'a>(kml: &'a str) -> (r: Result<Vec<Token<'a>>, Error>)
    ensures
        match lex(kml.spec_bytes()) {
            Some(ts) => r is Ok && token_views(r->Ok_0@) == ts && forall|k: int|
                0 <= k < r->Ok_0@.len() ==> (#[trigger] r->Ok_0@[k]).source == kml
                    && r->Ok_0@[k].wf(),
            None => r == Err::<Vec<Token<'a>>, Error>(Error::LexError),
        },
{
    let b = kml.as_bytes();
    let ghost bs = b@;
    let mut out: Vec<Token<'a>> = Vec::new();
    let mut pos: usize = 0;
    proof {
        assert(token_views(out@) =~= Seq::<TokenSpec>::empty());
        assert(prepend(Seq::empty(), lex_from(bs, 0)) == lex_from(bs, 0)) by {
            if lex_from(bs, 0) is Some {
                assert(Seq::<TokenSpec>::empty() + lex_from(bs, 0)->0 =~= lex_from(bs, 0)->0);
            }
        }
    }
    while pos < b.len()
        invariant
            bs == b@,
            bs == kml.spec_bytes(),
            valid_utf8(bs),
            0 <= pos <= bs.len(),
            lex(bs) == prepend(token_views(out@), lex_from(bs, pos as int)),
            forall|k: int|
                0 <= k < out@.len() ==> (#[trigger] out@[k]).source == kml && out@[k].wf(),
        decreases bs.len() - pos,
    {
        let c = b[pos];
        let ghost before = token_views(out@);
        if c == 0x20 || c == 0x09 || c == 0x0d || c == 0x0a || c == 0x0c {
            pos = pos + 1;
        } else if c == 0x23 {
            let j = scan_comment(b, pos + 1);
            proof {
                lemma_comment_end_bounds(bs, pos + 1);
            }
            pos = j;
        } else {
            let start = pos;
            let (kind, end) = match punct_kind_of(c) {
                Some(k) => (k, pos + 1),
                None => {
                    if is_ident_char_exec(c) && !(0x30 <= c && c <= 0x39) {
                        let j = scan_ident(b, pos + 1);
                        proof {
                            lemma_ident_end_bounds(bs, pos + 1);
                        }
                        (word_kind_of(b, pos, j), j)
                    } else {
                        return Err(Error::LexError);
                    }
                },
            };
            proof {
                is_char_boundary_iff_not_is_continuation_byte(bs, start as int);
                is_char_boundary_start_end_of_seq(bs);
                if end < bs.len() {
                    lemma_after_ascii(bs, end as int);
                    is_char_boundary_iff_not_is_continuation_byte(bs, end as int);
                }
            }
            let tok = Token { source: kml, kind, span: start..end };
            out.push(tok);
            pos = end;
            proof {
                let t = seq![(kind, start as int, end as int)];
                assert(token_views(out@) =~= before + t);
                if lex_from(bs, end as int) is Some {
                    assert(before + (t + lex_from(bs, end as int)->0) =~= (before + t)
                        + lex_from(bs, end as int)->0);
                }
            }
        }
    }
    proof {
        assert(lex_from(bs, pos as int) == Some(Seq::<TokenSpec>::empty()));
        assert(token_views(out@) + Seq::<TokenSpec>::empty() =~= token_views(out@));
    }
    Ok(out)
}


/// What every token of `lex_from(b, i)` looks like: a punctuation byte, or a
/// maximal run of identifier bytes with the kind that its word gives.
pub open spec fn token_shape(b: Seq<u8>, t: TokenSpec) -> bool {
    let (kind, s, e) = t;
    &&& 0 <= s < e <= b.len()
    &&& (e == s + 1 && punct_kind(b[s]) == Some(kind)) || (is_ident_start(b[s]) && e == ident_end(
        b,
        s + 1,
    ) && kind == word_kind(b.subrange(s, e)))
}

proof fn lemma_lex_shape(b: Seq<u8>, i: int)
    requires
        0 <= i,
        lex_from(b, i) is Some,
    ensures
        forall|k: int|
            0 <= k < lex_from(b, i)->0.len() ==> token_shape(b, #[trigger] lex_from(b, i)->0[k]),
    decreases b.len() - i,
{
    if i >= b.len() {
    } else if is_space(b[i]) {
        lemma_lex_shape(b, i + 1);
    } else if b[i] == 0x23 {
        lemma_lex_shape(b, comment_end(b, i + 1));
    } else if punct_kind(b[i]) is Some {
        lemma_lex_shape(b, i + 1);
        let ts = lex_from(b, i)->0;
        assert forall|k: int| 0 <= k < ts.len() implies token_shape(b, #[trigger] ts[k]) by {
            if k > 0 {
                assert(ts[k] == lex_from(b, i + 1)->0[k - 1]);
            }
        }
    } else if is_ident_start(b[i]) {
        let j = ident_end(b, i + 1);
        lemma_lex_shape(b, j);
        let ts = lex_from(b, i)->0;
        assert forall|k: int| 0 <= k < ts.len() implies token_shape(b, #[trigger] ts[k]) by {
            if k > 0 {
                assert(ts[k] == lex_from(b, j)->0[k - 1]);
            }
        }
    }
}

proof fn lemma_ident_end_whole(w: Seq<u8>, i: int)
    requires
        0 <= i <= w.len(),
        forall|k: int| i <= k < w.len() ==> is_ident_char(w[k]),
    ensures
        ident_end(w, i) == w.len(),
    decreases w.len() - i,
{
    if i < w.len() {
        lemma_ident_end_whole(w, i + 1);
    }
}

/// Lexing the text of any token of a text again gives that one token, with
/// its kind, spanning the whole of the text.
pub proof fn lemma_relex_token(b: Seq<u8>, k: int)
    requires
        lex(b) is Some,
        0 <= k < lex(b)->0.len(),
    ensures
        ({
            let (kind, s, e) = lex(b)->0[k];
            lex(b.subrange(s, e)) == Some(seq![(kind, 0int, e - s)])
        }),
{
    lemma_lex_shape(b, 0);
    let (kind, s, e) = lex(b)->0[k];
    assert(token_shape(b, lex(b)->0[k]));
    let w = b.subrange(s, e);
    assert(w[0] == b[s]);
    assert(lex_from(w, w.len() as int) == Some(Seq::<TokenSpec>::empty()));
    if e == s + 1 && punct_kind(b[s]) == Some(kind) {
        assert(seq![(kind, 0int, 1int)] + Seq::<TokenSpec>::empty() =~= seq![(kind, 0int, 1int)]);
    } else {
        lemma_ident_end_bounds(b, s + 1);
        assert forall|m: int| 1 <= m < w.len() implies is_ident_char(w[m]) by {
            assert(w[m] == b[s + m]);
        }
        lemma_ident_end_whole(w, 1);
        assert(w.subrange(0, w.len() as int) =~= w);
        assert(seq![(kind, 0int, e - s)] + Seq::<TokenSpec>::empty() =~= seq![(kind, 0int, e - s)]);
    }
}

} // verus!
