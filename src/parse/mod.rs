use vstd::prelude::*;

pub mod ast;
pub mod lexer;
pub mod parser;

pub use ast::{
    EventAction, EventDef, Identifier, KernelConfig, KernelDef, Model, SchedulerType,
};

use crate::error::Error;
use lexer::{lex, spell, tokenize_kml, token_views};
use parser::{p_model, parse_kml, Tokens};
use vstd::string::StringSliceAdditionalSpecFns;
use ast::{config_names, declares, only_events_at, only_scheduler_at, valid_model};

verus! {

/// What loading `kml` gives: a lexing error, a syntax error, a semantic error,
/// or the model.
pub open spec fn load_result(kml: &str, r: Result<Model, Error>) -> bool {
    match lex(kml.spec_bytes()) {
        None => r == Err::<Model, Error>(Error::LexError),
        Some(ts) => match p_model(spell(kml, ts)) {
            None => r == Err::<Model, Error>(Error::SyntaxError),
            Some(m) => if valid_model(m) {
                r is Ok && r->Ok_0@ == m
            } else {
                r == Err::<Model, Error>(Error::BadKernelConfig)
            },
        },
    }
}

/// Turns source text into a validated model.
pub fn lex_and_parse_kml(kml: &str) -> (r: Result<Model, Error>)
    ensures
        load_result(kml, r),
{
    let tokens = tokenize_kml(kml)?;
    let ghost ts = lex(kml.spec_bytes())->0;
    proof {
        assert(tokens@.len() == ts.len());
        assert forall|k: int| 0 <= k < ts.len() implies tokens@[k] == spell(kml, ts)[k] by {
            assert(token_views(tokens@)[k] == ts[k]);
        }
        assert(tokens@ =~= spell(kml, ts));
    }
    let model = parse_kml(Tokens::from(tokens.as_slice()))?;
    verify(&model)?;
    Ok(model)
}

/// Whether some definition of `defs` is named `name`.
fn is_declared(defs: &Vec<EventDef>, name: &Identifier) -> (r: bool)
    ensures
        r == declares(defs@.map_values(|d: EventDef| d@), name@),
{
    let ghost dv = defs@.map_values(|d: EventDef| d@);
    let mut d: usize = 0;
    while d < defs.len()
        invariant
            dv == defs@.map_values(|d: EventDef| d@),
            0 <= d <= defs@.len(),
            forall|e: int| 0 <= e < d ==> dv[e].0 != name@,
        decreases defs@.len() - d,
    {
        if defs[d].name == *name {
            assert(dv[d as int].0 == name@);
            return true;
        }
        d = d + 1;
    }
    false
}

/// Checks the rules that the grammar leaves open: the kernel block has exactly
/// one `events` entry and one `scheduler` entry, and every listed event is declared.
pub fn verify(model: &Model) -> (r: Result<(), Error>)
    ensures
        r is Ok <==> valid_model(model@),
        r is Err ==> r == Err::<(), Error>(Error::BadKernelConfig),
{
    let configs = &model.kernel_def.configs;
    let ghost cv = model@.1;
    let mut events_at: Option<usize> = None;
    let mut scheduler_at: Option<usize> = None;
    let mut i: usize = 0;
    while i < configs.len()
        invariant
            cv == configs@.map_values(|c: KernelConfig| c@),
            cv == model@.1,
            0 <= i <= configs@.len(),
            match events_at {
                None => forall|j: int| 0 <= j < i ==> !(cv[j] is Events),
                Some(e) => e < i && cv[e as int] is Events && forall|j: int|
                    0 <= j < i && (#[trigger] cv[j]) is Events ==> j == e,
            },
            match scheduler_at {
                None => forall|j: int| 0 <= j < i ==> !(cv[j] is Scheduler),
                Some(e) => e < i && cv[e as int] is Scheduler && forall|j: int|
                    0 <= j < i && (#[trigger] cv[j]) is Scheduler ==> j == e,
            },
        decreases configs@.len() - i,
    {
        match &configs[i] {
            KernelConfig::Events(_) => {
                if events_at.is_some() {
                    proof {
                        let e = events_at->0 as int;
                        assert(cv[e] is Events && cv[i as int] is Events);
                        assert forall|x: int| !only_events_at(cv, x) by {
                            if only_events_at(cv, x) {
                                assert(e == x && i == x);
                            }
                        }
                    }
                    return Err(Error::BadKernelConfig);
                }
                events_at = Some(i);
            },
            KernelConfig::Scheduler(_) => {
                if scheduler_at.is_some() {
                    proof {
                        let e = scheduler_at->0 as int;
                        assert(cv[e] is Scheduler && cv[i as int] is Scheduler);
                        assert forall|x: int| !only_scheduler_at(cv, x) by {
                            if only_scheduler_at(cv, x) {
                                assert(e == x && i == x);
                            }
                        }
                    }
                    return Err(Error::BadKernelConfig);
                }
                scheduler_at = Some(i);
            },
        }
        i = i + 1;
    }
    let e = match events_at {
        None => {
            assert forall|x: int| !only_events_at(cv, x) by {
                if only_events_at(cv, x) {
                    assert(cv[x] is Events);
                }
            }
            return Err(Error::BadKernelConfig);
        },
        Some(e) => e,
    };
    if scheduler_at.is_none() {
        assert forall|x: int| !only_scheduler_at(cv, x) by {
            if only_scheduler_at(cv, x) {
                assert(cv[x] is Scheduler);
            }
        }
        return Err(Error::BadKernelConfig);
    }
    assert(only_events_at(cv, e as int));
    assert(only_scheduler_at(cv, scheduler_at->0 as int));
    let names = match &configs[e] {
        KernelConfig::Events(names) => names,
        KernelConfig::Scheduler(_) => {
            return Err(Error::BadKernelConfig);
        },
    };
    let ghost nv = config_names(cv[e as int]);
    assert(nv =~= names@.map_values(|n: Identifier| n@));
    let mut k: usize = 0;
    while k < names.len()
        invariant
            cv == model@.1,
            only_events_at(cv, e as int),
            nv == config_names(cv[e as int]),
            nv == names@.map_values(|n: Identifier| n@),
            0 <= k <= names@.len(),
            forall|m: int| 0 <= m < k ==> declares(model@.0, nv[m]),
        decreases names@.len() - k,
    {
        if !is_declared(&model.event_defs, &names[k]) {
            assert(!declares(model@.0, config_names(cv[e as int])[k as int]));
            return Err(Error::BadKernelConfig);
        }
        k = k + 1;
    }
    assert forall|x: int, m: int|
        0 <= x < cv.len() && 0 <= m < config_names(cv[x]).len() implies declares(
        model@.0,
        #[trigger] config_names(cv[x])[m],
    ) by {
        if x != e {
            assert(!(cv[x] is Events));
        }
    }
    Ok(())
}

} // verus!
