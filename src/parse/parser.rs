use vstd::prelude::*;

use super::ast::{
    action_of, config_names, ConfigView, EventAction, EventDef, EventDefView, Identifier, KernelConfig, KernelDef,
    Model, ModelView, SchedulerType,
};
use super::lexer::{Token, TokenKind};
use crate::error::Error;

verus! {

/// A view over a token sequence: the tokens at `start..end` of `tok`.
#[derive(Debug)]
pub struct Tokens<'a> {
    pub tok: &'a [Token<'a>],
    pub start: usize,
    pub end: usize,
}

impl<'a> Tokens<'a> {
    /// A view over all of `tok`.
    pub fn from(tok: &'a [Token<'a>]) -> (r: Tokens<'a>)
        ensures
            r.tok@ == tok@,
            r.start == 0,
            r.end == tok@.len(),
    {
        Tokens { tok, start: 0, end: tok.len() }
    }
}

/// Every token's range lies on character boundaries of its source.
pub open spec fn all_wf<'a>(ts: Seq<Token<'a>>) -> bool {
    forall|k: int| 0 <= k < ts.len() ==> (#[trigger] ts[k]).wf()
}

pub open spec fn kind_at<'a>(ts: Seq<Token<'a>>, i: int) -> Option<TokenKind> {
    if 0 <= i < ts.len() {
        Some(ts[i].kind)
    } else {
        None
    }
}

/// `event_action*` from token `i`: the actions and where they end.
pub open spec fn p_actions<'a>(ts: Seq<Token<'a>>, i: int) -> (Seq<EventAction>, int)
    decreases ts.len() - i,
{
    if 0 <= i < ts.len() && ts[i].kind.spec_is_action() {
        let (rest, j) = p_actions(ts, i + 1);
        (seq![action_of(ts[i].kind)] + rest, j)
    } else {
        (Seq::empty(), i)
    }
}

/// `event identifier { event_action* }` at token `i`.
pub open spec fn p_event_def<'a>(ts: Seq<Token<'a>>, i: int) -> Option<(EventDefView, int)> {
    let (acts, j) = p_actions(ts, i + 3);
    if kind_at(ts, i) == Some(TokenKind::Event) && kind_at(ts, i + 1) == Some(
        TokenKind::Identifier,
    ) && kind_at(ts, i + 2) == Some(TokenKind::LBrace) && kind_at(ts, j) == Some(
        TokenKind::RBrace,
    ) {
        Some(((ts[i + 1].text_chars(), acts), j + 1))
    } else {
        None
    }
}

/// `event_def*` from token `i`.
pub open spec fn p_event_defs<'a>(ts: Seq<Token<'a>>, i: int) -> (Seq<EventDefView>, int)
    decreases ts.len() - i,
{
    match p_event_def(ts, i) {
        Some((d, j)) => if i < j <= ts.len() {
            let (rest, k) = p_event_defs(ts, j);
            (seq![d] + rest, k)
        } else {
            (Seq::empty(), i)
        },
        None => (Seq::empty(), i),
    }
}

/// The `( , identifier )*` tail of an identifier list from token `i`.
pub open spec fn p_ident_tail<'a>(ts: Seq<Token<'a>>, i: int) -> (Seq<Seq<char>>, int)
    decreases ts.len() - i,
{
    if 0 <= i && kind_at(ts, i) == Some(TokenKind::Comma) && kind_at(ts, i + 1) == Some(
        TokenKind::Identifier,
    ) {
        let (rest, j) = p_ident_tail(ts, i + 2);
        (seq![ts[i + 1].text_chars()] + rest, j)
    } else {
        (Seq::empty(), i)
    }
}

/// One config entry at token `i`.
pub open spec fn p_config<'a>(ts: Seq<Token<'a>>, i: int) -> Option<(ConfigView, int)> {
    if kind_at(ts, i) == Some(TokenKind::Events) {
        let (rest, j) = p_ident_tail(ts, i + 4);
        if kind_at(ts, i + 1) == Some(TokenKind::Eq) && kind_at(ts, i + 2) == Some(
            TokenKind::LBracket,
        ) && kind_at(ts, i + 3) == Some(TokenKind::Identifier) && kind_at(ts, j) == Some(
            TokenKind::RBracket,
        ) {
            Some((ConfigView::Events(seq![ts[i + 3].text_chars()] + rest), j + 1))
        } else {
            None
        }
    } else if kind_at(ts, i) == Some(TokenKind::Scheduler) && kind_at(ts, i + 1) == Some(
        TokenKind::Eq,
    ) {
        if kind_at(ts, i + 2) == Some(TokenKind::Fifo) {
            Some((ConfigView::Scheduler(SchedulerType::Fifo), i + 3))
        } else if kind_at(ts, i + 2) == Some(TokenKind::Random) {
            Some((ConfigView::Scheduler(SchedulerType::Random), i + 3))
        } else {
            None
        }
    } else {
        None
    }
}

/// `kernel_config*` from token `i`.
pub open spec fn p_configs<'a>(ts: Seq<Token<'a>>, i: int) -> (Seq<ConfigView>, int)
    decreases ts.len() - i,
{
    match p_config(ts, i) {
        Some((c, j)) => if i < j <= ts.len() {
            let (rest, k) = p_configs(ts, j);
            (seq![c] + rest, k)
        } else {
            (Seq::empty(), i)
        },
        None => (Seq::empty(), i),
    }
}

/// `kernel { kernel_config* }` at token `i`.
pub open spec fn p_kernel_def<'a>(ts: Seq<Token<'a>>, i: int) -> Option<(Seq<ConfigView>, int)> {
    let (cs, j) = p_configs(ts, i + 2);
    if kind_at(ts, i) == Some(TokenKind::Kernel) && kind_at(ts, i + 1) == Some(TokenKind::LBrace)
        && kind_at(ts, j) == Some(TokenKind::RBrace) {
        Some((cs, j + 1))
    } else {
        None
    }
}

/// The model that a whole token sequence spells, if it matches the grammar.
pub open spec fn p_model<'a>(ts: Seq<Token<'a>>) -> Option<ModelView> {
    let (defs, i) = p_event_defs(ts, 0);
    match p_kernel_def(ts, i) {
        Some((cs, j)) => if j == ts.len() {
            Some((defs, cs))
        } else {
            None
        },
        None => None,
    }
}


fn is_kind<'a>(ts: &[Token<'a>], i: usize, kind: TokenKind) -> (r: bool)
    ensures
        r == (kind_at(ts@, i as int) == Some(kind)),
        ts@.len() <= usize::MAX,
{
    let n = ts.len();
    i < n && ts[i].kind == kind
}

fn identifier<'a>(t: &Token<'a>) -> (r: Identifier)
    requires
        t.wf(),
    ensures
        r@ == t.text_chars(),
{
    Identifier(t.text().to_owned())
}

fn event_actions<'a>(ts: &[Token<'a>], i: usize) -> (r: (Vec<EventAction>, usize))
    requires
        i <= ts@.len(),
    ensures
        r.0@ == p_actions(ts@, i as int).0,
        r.1 == p_actions(ts@, i as int).1,
        i <= r.1 <= ts@.len(),
{
    let mut out: Vec<EventAction> = Vec::new();
    let mut j = i;
    assert(out@ + p_actions(ts@, j as int).0 =~= p_actions(ts@, j as int).0);
    while j < ts.len() && ts[j].kind.is_action()
        invariant
            i <= j <= ts@.len(),
            p_actions(ts@, i as int).0 == out@ + p_actions(ts@, j as int).0,
            p_actions(ts@, i as int).1 == p_actions(ts@, j as int).1,
        decreases ts@.len() - j,
    {
        let a = EventAction::from(ts[j].kind);
        let ghost before = out@;
        out.push(a);
        assert(before + (seq![a] + p_actions(ts@, j + 1).0) =~= out@ + p_actions(ts@, j + 1).0);
        j = j + 1;
    }
    assert(out@ + p_actions(ts@, j as int).0 =~= out@);
    (out, j)
}

fn event_def<'a>(ts: &[Token<'a>], i: usize) -> (r: Option<(EventDef, usize)>)
    requires
        i <= ts@.len(),
        all_wf(ts@),
    ensures
        match p_event_def(ts@, i as int) {
            Some((d, j)) => r is Some && (r->0).0@ == d && (r->0).1 == j,
            None => r is None,
        },
        r is Some ==> i < (r->0).1 <= ts@.len(),
{
    if !(is_kind(ts, i, TokenKind::Event) && is_kind(ts, i + 1, TokenKind::Identifier) && is_kind(
        ts,
        i + 2,
        TokenKind::LBrace,
    )) {
        return None;
    }
    let name = identifier(&ts[i + 1]);
    let (body, j) = event_actions(ts, i + 3);
    if !is_kind(ts, j, TokenKind::RBrace) {
        return None;
    }
    Some((EventDef { name, body }, j + 1))
}

fn event_defs<'a>(ts: &[Token<'a>], i: usize) -> (r: (Vec<EventDef>, usize))
    requires
        i <= ts@.len(),
        all_wf(ts@),
    ensures
        r.0@.map_values(|d: EventDef| d@) == p_event_defs(ts@, i as int).0,
        r.1 == p_event_defs(ts@, i as int).1,
        i <= r.1 <= ts@.len(),
{
    let mut out: Vec<EventDef> = Vec::new();
    let mut j = i;
    assert(out@.map_values(|d: EventDef| d@) + p_event_defs(ts@, j as int).0 =~= p_event_defs(
        ts@,
        j as int,
    ).0);
    loop
        invariant
            i <= j <= ts@.len(),
            all_wf(ts@),
            p_event_defs(ts@, i as int).0 == out@.map_values(|d: EventDef| d@) + p_event_defs(
                ts@,
                j as int,
            ).0,
            p_event_defs(ts@, i as int).1 == p_event_defs(ts@, j as int).1,
        decreases ts@.len() - j,
    {
        match event_def(ts, j) {
            Some((d, k)) => {
                let ghost before = out@.map_values(|d: EventDef| d@);
                let ghost dv = d@;
                out.push(d);
                assert(out@.map_values(|d: EventDef| d@) =~= before + seq![dv]);
                assert(before + (seq![dv] + p_event_defs(ts@, k as int).0) =~= out@.map_values(
                    |d: EventDef| d@,
                ) + p_event_defs(ts@, k as int).0);
                j = k;
            },
            None => {
                assert(out@.map_values(|d: EventDef| d@) + p_event_defs(ts@, j as int).0
                    =~= out@.map_values(|d: EventDef| d@));
                return (out, j);
            },
        }
    }
}

fn ident_tail<'a>(ts: &[Token<'a>], i: usize) -> (r: (Vec<Identifier>, usize))
    requires
        i <= ts@.len(),
        all_wf(ts@),
    ensures
        r.0@.map_values(|n: Identifier| n@) == p_ident_tail(ts@, i as int).0,
        r.1 == p_ident_tail(ts@, i as int).1,
        i <= r.1 <= ts@.len(),
{
    let mut out: Vec<Identifier> = Vec::new();
    let mut j = i;
    assert(out@.map_values(|n: Identifier| n@) + p_ident_tail(ts@, j as int).0 =~= p_ident_tail(
        ts@,
        j as int,
    ).0);
    while is_kind(ts, j, TokenKind::Comma) && is_kind(ts, j + 1, TokenKind::Identifier)
        invariant
            i <= j <= ts@.len(),
            all_wf(ts@),
            p_ident_tail(ts@, i as int).0 == out@.map_values(|n: Identifier| n@) + p_ident_tail(
                ts@,
                j as int,
            ).0,
            p_ident_tail(ts@, i as int).1 == p_ident_tail(ts@, j as int).1,
        decreases ts@.len() - j,
    {
        let n = identifier(&ts[j + 1]);
        let ghost before = out@.map_values(|n: Identifier| n@);
        let ghost nv = n@;
        out.push(n);
        assert(out@.map_values(|n: Identifier| n@) =~= before + seq![nv]);
        assert(before + (seq![nv] + p_ident_tail(ts@, j + 2).0) =~= out@.map_values(
            |n: Identifier| n@,
        ) + p_ident_tail(ts@, j + 2).0);
        j = j + 2;
    }
    assert(out@.map_values(|n: Identifier| n@) + p_ident_tail(ts@, j as int).0 =~= out@.map_values(
        |n: Identifier| n@,
    ));
    (out, j)
}

fn kernel_config<'a>(ts: &[Token<'a>], i: usize) -> (r: Option<(KernelConfig, usize)>)
    requires
        i <= ts@.len(),
        all_wf(ts@),
    ensures
        match p_config(ts@, i as int) {
            Some((c, j)) => r is Some && (r->0).0@ == c && (r->0).1 == j,
            None => r is None,
        },
        r is Some ==> i < (r->0).1 <= ts@.len(),
{
    if is_kind(ts, i, TokenKind::Events) {
        if !(is_kind(ts, i + 1, TokenKind::Eq) && is_kind(ts, i + 2, TokenKind::LBracket)
            && is_kind(ts, i + 3, TokenKind::Identifier)) {
            return None;
        }
        let first = identifier(&ts[i + 3]);
        let (rest, j) = ident_tail(ts, i + 4);
        if !is_kind(ts, j, TokenKind::RBracket) {
            return None;
        }
        let mut names: Vec<Identifier> = Vec::new();
        names.push(first);
        let mut rest = rest;
        let ghost rv = rest@.map_values(|n: Identifier| n@);
        let ghost fv = names@.map_values(|n: Identifier| n@);
        names.append(&mut rest);
        assert(fv =~= seq![ts@[i + 3].text_chars()]);
        assert(names@.map_values(|n: Identifier| n@) =~= fv + rv);
        let r = KernelConfig::Events(names);
        assert(r@ == ConfigView::Events(seq![ts@[i + 3].text_chars()] + rv));
        Some((r, j + 1))
    } else if is_kind(ts, i, TokenKind::Scheduler) && is_kind(ts, i + 1, TokenKind::Eq) {
        if is_kind(ts, i + 2, TokenKind::Fifo) {
            Some((KernelConfig::Scheduler(SchedulerType::Fifo), i + 3))
        } else if is_kind(ts, i + 2, TokenKind::Random) {
            Some((KernelConfig::Scheduler(SchedulerType::Random), i + 3))
        } else {
            None
        }
    } else {
        None
    }
}

fn kernel_configs<'a>(ts: &[Token<'a>], i: usize) -> (r: (Vec<KernelConfig>, usize))
    requires
        i <= ts@.len(),
        all_wf(ts@),
    ensures
        r.0@.map_values(|c: KernelConfig| c@) == p_configs(ts@, i as int).0,
        r.1 == p_configs(ts@, i as int).1,
        i <= r.1 <= ts@.len(),
{
    let mut out: Vec<KernelConfig> = Vec::new();
    let mut j = i;
    assert(out@.map_values(|c: KernelConfig| c@) + p_configs(ts@, j as int).0 =~= p_configs(
        ts@,
        j as int,
    ).0);
    loop
        invariant
            i <= j <= ts@.len(),
            all_wf(ts@),
            p_configs(ts@, i as int).0 == out@.map_values(|c: KernelConfig| c@) + p_configs(
                ts@,
                j as int,
            ).0,
            p_configs(ts@, i as int).1 == p_configs(ts@, j as int).1,
        decreases ts@.len() - j,
    {
        match kernel_config(ts, j) {
            Some((c, k)) => {
                let ghost before = out@.map_values(|c: KernelConfig| c@);
                let ghost cv = c@;
                out.push(c);
                assert(out@.map_values(|c: KernelConfig| c@) =~= before + seq![cv]);
                assert(before + (seq![cv] + p_configs(ts@, k as int).0) =~= out@.map_values(
                    |c: KernelConfig| c@,
                ) + p_configs(ts@, k as int).0);
                j = k;
            },
            None => {
                assert(out@.map_values(|c: KernelConfig| c@) + p_configs(ts@, j as int).0
                    =~= out@.map_values(|c: KernelConfig| c@));
                return (out, j);
            },
        }
    }
}

fn kernel_def<'a>(ts: &[Token<'a>], i: usize) -> (r: Option<(KernelDef, usize)>)
    requires
        i <= ts@.len(),
        all_wf(ts@),
    ensures
        match p_kernel_def(ts@, i as int) {
            Some((cs, j)) => r is Some && (r->0).0@ == cs && (r->0).1 == j,
            None => r is None,
        },
{
    if !(is_kind(ts, i, TokenKind::Kernel) && is_kind(ts, i + 1, TokenKind::LBrace)) {
        return None;
    }
    let (configs, j) = kernel_configs(ts, i + 2);
    if !is_kind(ts, j, TokenKind::RBrace) {
        return None;
    }
    Some((KernelDef { configs }, j + 1))
}

/// Parses a whole token sequence as a model; nothing may be left over.
pub fn parse_kml<'a>(input: Tokens<'a>) -> (r: Result<Model, Error>)
    requires
        all_wf(input.tok@),
    ensures
        match p_model(input.tok@) {
            Some(m) => r is Ok && r->Ok_0@ == m,
            None => r == Err::<Model, Error>(Error::SyntaxError),
        },
{
    let ts = input.tok;
    let (event_defs, i) = event_defs(ts, 0);
    match kernel_def(ts, i) {
        Some((kernel_def, j)) => {
            if j == ts.len() {
                Ok(Model { event_defs, kernel_def })
            } else {
                Err(Error::SyntaxError)
            }
        },
        None => Err(Error::SyntaxError),
    }
}


/// What the parser reads of a token: its kind, and its text if it is an identifier.
pub type TokenSig = (TokenKind, Seq<char>);

pub open spec fn sig_of<'a>(t: Token<'a>) -> TokenSig {
    (t.kind, if t.kind == TokenKind::Identifier { t.text_chars() } else { Seq::empty() })
}

pub open spec fn punct(k: TokenKind) -> TokenSig {
    (k, Seq::empty())
}

pub open spec fn ident(n: Seq<char>) -> TokenSig {
    (TokenKind::Identifier, n)
}

/// The keyword that writes an action.
pub open spec fn action_kind(a: EventAction) -> TokenKind {
    match a {
        EventAction::Shutdown => TokenKind::Shutdown,
        EventAction::NewTask => TokenKind::NewTask,
        EventAction::Exit => TokenKind::Exit,
        EventAction::Sched => TokenKind::Sched,
        EventAction::Stop => TokenKind::Stop,
    }
}

pub open spec fn print_actions(acts: Seq<EventAction>) -> Seq<TokenSig> {
    acts.map_values(|a: EventAction| punct(action_kind(a)))
}

pub open spec fn print_def(d: EventDefView) -> Seq<TokenSig> {
    seq![punct(TokenKind::Event), ident(d.0), punct(TokenKind::LBrace)] + print_actions(d.1)
        + seq![punct(TokenKind::RBrace)]
}

pub open spec fn print_defs(ds: Seq<EventDefView>) -> Seq<TokenSig>
    decreases ds.len(),
{
    if ds.len() == 0 {
        Seq::empty()
    } else {
        print_def(ds[0]) + print_defs(ds.drop_first())
    }
}

pub open spec fn print_tail(ns: Seq<Seq<char>>) -> Seq<TokenSig>
    decreases ns.len(),
{
    if ns.len() == 0 {
        Seq::empty()
    } else {
        seq![punct(TokenKind::Comma), ident(ns[0])] + print_tail(ns.drop_first())
    }
}

pub open spec fn print_config(c: ConfigView) -> Seq<TokenSig> {
    match c {
        ConfigView::Events(ns) => seq![
            punct(TokenKind::Events),
            punct(TokenKind::Eq),
            punct(TokenKind::LBracket),
            ident(ns[0]),
        ] + print_tail(ns.drop_first()) + seq![punct(TokenKind::RBracket)],
        ConfigView::Scheduler(t) => seq![
            punct(TokenKind::Scheduler),
            punct(TokenKind::Eq),
            punct(
                match t {
                    SchedulerType::Fifo => TokenKind::Fifo,
                    SchedulerType::Random => TokenKind::Random,
                },
            ),
        ],
    }
}

pub open spec fn print_configs(cs: Seq<ConfigView>) -> Seq<TokenSig>
    decreases cs.len(),
{
    if cs.len() == 0 {
        Seq::empty()
    } else {
        print_config(cs[0]) + print_configs(cs.drop_first())
    }
}

/// The tokens that write a model out in the grammar.
pub open spec fn print_model(m: ModelView) -> Seq<TokenSig> {
    print_defs(m.0) + seq![punct(TokenKind::Kernel), punct(TokenKind::LBrace)] + print_configs(m.1)
        + seq![punct(TokenKind::RBrace)]
}

/// A model that the grammar can write: every `events` list names at least one event.
pub open spec fn writable(m: ModelView) -> bool {
    forall|i: int| 0 <= i < m.1.len() ==> (#[trigger] m.1[i] is Events ==> config_names(m.1[i]).len() > 0)
}


/// Tokens `i..i + p.len()` of `ts` read as `p`.
pub open spec fn reads_at<'a>(ts: Seq<Token<'a>>, i: int, p: Seq<TokenSig>) -> bool {
    0 <= i && i + p.len() <= ts.len() && forall|k: int| 0 <= k < p.len() ==> sig_of(ts[i + k]) == p[k]
}

proof fn lemma_reads_split<'a>(ts: Seq<Token<'a>>, i: int, a: Seq<TokenSig>, b: Seq<TokenSig>)
    requires
        reads_at(ts, i, a + b),
    ensures
        reads_at(ts, i, a),
        reads_at(ts, i + a.len(), b),
{
    assert forall|k: int| 0 <= k < a.len() implies sig_of(ts[i + k]) == a[k] by {
        assert((a + b)[k] == a[k]);
    }
    assert forall|k: int| 0 <= k < b.len() implies sig_of(ts[i + a.len() + k]) == b[k] by {
        assert((a + b)[a.len() + k] == b[k]);
    }
}

proof fn lemma_actions<'a>(ts: Seq<Token<'a>>, i: int, acts: Seq<EventAction>)
    requires
        reads_at(ts, i, print_actions(acts)),
        !(i + acts.len() < ts.len() && ts[i + acts.len()].kind.spec_is_action()),
    ensures
        p_actions(ts, i) == (acts, i + acts.len()),
    decreases acts.len(),
{
    if acts.len() == 0 {
        assert(acts =~= Seq::<EventAction>::empty());
    } else {
        assert(sig_of(ts[i + 0]) == print_actions(acts)[0]);
        let rest = acts.drop_first();
        assert forall|k: int| 0 <= k < print_actions(rest).len() implies sig_of(ts[i + 1 + k])
            == print_actions(rest)[k] by {
            assert(sig_of(ts[i + (k + 1)]) == print_actions(acts)[k + 1]);
        }
        lemma_actions(ts, i + 1, rest);
        assert(action_of(ts[i].kind) == acts[0]);
        assert(seq![acts[0]] + rest =~= acts);
    }
}

proof fn lemma_event_def<'a>(ts: Seq<Token<'a>>, i: int, d: EventDefView)
    requires
        reads_at(ts, i, print_def(d)),
    ensures
        p_event_def(ts, i) == Some((d, i + print_def(d).len())),
{
    let head = seq![punct(TokenKind::Event), ident(d.0), punct(TokenKind::LBrace)];
    let acts = print_actions(d.1);
    let close = seq![punct(TokenKind::RBrace)];
    assert(print_def(d) == head + acts + close);
    lemma_reads_split(ts, i, head + acts, close);
    lemma_reads_split(ts, i, head, acts);
    assert(sig_of(ts[i + 0]) == head[0]);
    assert(sig_of(ts[i + 1]) == head[1]);
    assert(sig_of(ts[i + 2]) == head[2]);
    let j = i + 3 + d.1.len();
    assert(sig_of(ts[i + 3 + acts.len() + 0]) == close[0]);
    lemma_actions(ts, i + 3, d.1);
}

proof fn lemma_event_defs<'a>(ts: Seq<Token<'a>>, i: int, ds: Seq<EventDefView>)
    requires
        reads_at(ts, i, print_defs(ds)),
        i + print_defs(ds).len() < ts.len(),
        ts[i + print_defs(ds).len()].kind != TokenKind::Event,
    ensures
        p_event_defs(ts, i) == (ds, i + print_defs(ds).len()),
    decreases ds.len(),
{
    if ds.len() == 0 {
        assert(ds =~= Seq::<EventDefView>::empty());
    } else {
        let first = print_def(ds[0]);
        let rest = print_defs(ds.drop_first());
        lemma_reads_split(ts, i, first, rest);
        lemma_event_def(ts, i, ds[0]);
        lemma_event_defs(ts, i + first.len(), ds.drop_first());
        assert(seq![ds[0]] + ds.drop_first() =~= ds);
    }
}

proof fn lemma_ident_tail<'a>(ts: Seq<Token<'a>>, i: int, ns: Seq<Seq<char>>)
    requires
        reads_at(ts, i, print_tail(ns)),
        i + print_tail(ns).len() < ts.len(),
        ts[i + print_tail(ns).len()].kind != TokenKind::Comma,
    ensures
        p_ident_tail(ts, i) == (ns, i + print_tail(ns).len()),
    decreases ns.len(),
{
    if ns.len() == 0 {
        assert(ns =~= Seq::<Seq<char>>::empty());
    } else {
        let first = seq![punct(TokenKind::Comma), ident(ns[0])];
        let rest = print_tail(ns.drop_first());
        lemma_reads_split(ts, i, first, rest);
        assert(sig_of(ts[i + 0]) == first[0]);
        assert(sig_of(ts[i + 1]) == first[1]);
        lemma_ident_tail(ts, i + 2, ns.drop_first());
        assert(seq![ns[0]] + ns.drop_first() =~= ns);
    }
}

proof fn lemma_config<'a>(ts: Seq<Token<'a>>, i: int, c: ConfigView)
    requires
        reads_at(ts, i, print_config(c)),
        c is Events ==> config_names(c).len() > 0,
    ensures
        p_config(ts, i) == Some((c, i + print_config(c).len())),
{
    match c {
        ConfigView::Events(ns) => {
            let head = seq![
                punct(TokenKind::Events),
                punct(TokenKind::Eq),
                punct(TokenKind::LBracket),
                ident(ns[0]),
            ];
            let tail = print_tail(ns.drop_first());
            let close = seq![punct(TokenKind::RBracket)];
            lemma_reads_split(ts, i, head + tail, close);
            lemma_reads_split(ts, i, head, tail);
            assert(sig_of(ts[i + 0]) == head[0]);
            assert(sig_of(ts[i + 1]) == head[1]);
            assert(sig_of(ts[i + 2]) == head[2]);
            assert(sig_of(ts[i + 3]) == head[3]);
            assert(sig_of(ts[i + 4 + tail.len() + 0]) == close[0]);
            lemma_ident_tail(ts, i + 4, ns.drop_first());
            assert(seq![ns[0]] + ns.drop_first() =~= ns);
        },
        ConfigView::Scheduler(t) => {
            assert(sig_of(ts[i + 0]) == print_config(c)[0]);
            assert(sig_of(ts[i + 1]) == print_config(c)[1]);
            assert(sig_of(ts[i + 2]) == print_config(c)[2]);
        },
    }
}

proof fn lemma_configs<'a>(ts: Seq<Token<'a>>, i: int, cs: Seq<ConfigView>)
    requires
        reads_at(ts, i, print_configs(cs)),
        forall|k: int| 0 <= k < cs.len() ==> (#[trigger] cs[k] is Events ==> config_names(cs[k]).len() > 0),
        i + print_configs(cs).len() < ts.len(),
        ts[i + print_configs(cs).len()].kind == TokenKind::RBrace,
    ensures
        p_configs(ts, i) == (cs, i + print_configs(cs).len()),
    decreases cs.len(),
{
    if cs.len() == 0 {
        assert(cs =~= Seq::<ConfigView>::empty());
    } else {
        let first = print_config(cs[0]);
        let rest = print_configs(cs.drop_first());
        lemma_reads_split(ts, i, first, rest);
        assert(cs[0] is Events ==> config_names(cs[0]).len() > 0);
        lemma_config(ts, i, cs[0]);
        assert forall|k: int| 0 <= k < cs.drop_first().len() implies (#[trigger] cs.drop_first()[k] is Events
            ==> config_names(cs.drop_first()[k]).len() > 0) by {
            assert(cs.drop_first()[k] == cs[k + 1]);
        }
        lemma_configs(ts, i + first.len(), cs.drop_first());
        assert(seq![cs[0]] + cs.drop_first() =~= cs);
    }
}

/// Parsing is complete for the grammar: any token sequence that writes out a
/// model (one whose `events` lists are not empty) parses back to exactly
/// that model.
pub proof fn lemma_parse_written_model<'a>(ts: Seq<Token<'a>>, m: ModelView)
    requires
        writable(m),
        ts.len() == print_model(m).len(),
        forall|k: int| 0 <= k < ts.len() ==> sig_of(#[trigger] ts[k]) == print_model(m)[k],
    ensures
        p_model(ts) == Some(m),
{
    let defs = print_defs(m.0);
    let open = seq![punct(TokenKind::Kernel), punct(TokenKind::LBrace)];
    let body = print_configs(m.1);
    let close = seq![punct(TokenKind::RBrace)];
    assert(print_model(m) == defs + open + body + close);
    assert(reads_at(ts, 0, print_model(m))) by {
        assert forall|k: int| 0 <= k < print_model(m).len() implies sig_of(ts[0 + k])
            == print_model(m)[k] by {
            assert(ts[0 + k] == ts[k]);
        }
    }
    lemma_reads_split(ts, 0, defs + open + body, close);
    lemma_reads_split(ts, 0, defs + open, body);
    lemma_reads_split(ts, 0, defs, open);
    let i = defs.len() as int;
    assert(sig_of(ts[i + 0]) == open[0]);
    assert(sig_of(ts[i + 1]) == open[1]);
    lemma_event_defs(ts, 0, m.0);
    let j = i + 2 + body.len();
    assert(sig_of(ts[j + 0]) == close[0]);
    assert forall|k: int| 0 <= k < m.1.len() implies (#[trigger] m.1[k] is Events ==> config_names(m.1[k]).len() > 0) by {
    }
    lemma_configs(ts, i + 2, m.1);
}

} // verus!
