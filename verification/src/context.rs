//! The environment of one invocation: process id, environment variables and
//! the outputs of earlier nodes.

use crate::value::{
    decode, decode_model, distinct_keys, lookup, StructuredValue, ValueModel, WireModel,
    WireValue,
};
use vstd::prelude::*;

verus! {

/// Execution context of one invocation. `env` and `outputs` are keyed
/// entries; a context made from a request keeps the request's keys, in the
/// request's order.
#[derive(Debug, Clone, PartialEq)]
pub struct Context {
    /// Process id.
    pub pid: String,
    /// Environment variables.
    pub env: Vec<(String, String)>,
    /// Outputs of earlier nodes.
    pub outputs: Vec<(String, StructuredValue)>,
}

/// The context as a request carries it.
#[derive(Debug, PartialEq)]
pub struct WireContext {
    pub pid: String,
    pub env: Vec<(String, String)>,
    pub outputs: Vec<(String, WireValue)>,
}

/// Mathematical content of a [`Context`].
pub ghost struct ContextModel {
    pub pid: Seq<char>,
    pub env: Seq<(Seq<char>, Seq<char>)>,
    pub outputs: Seq<(Seq<char>, ValueModel)>,
}

/// Mathematical content of a [`WireContext`].
pub ghost struct WireContextModel {
    pub pid: Seq<char>,
    pub env: Seq<(Seq<char>, Seq<char>)>,
    pub outputs: Seq<(Seq<char>, WireModel)>,
}

/// The context with an empty process id and no entries.
pub open spec fn empty_context() -> ContextModel {
    ContextModel { pid: Seq::empty(), env: Seq::empty(), outputs: Seq::empty() }
}

/// What a wire context decodes to: process id and environment unchanged,
/// each output decoded under its key.
pub open spec fn decode_context(w: WireContextModel) -> ContextModel {
    ContextModel {
        pid: w.pid,
        env: w.env,
        outputs: Seq::new(
            w.outputs.len(),
            |i: int| (w.outputs[i].0, decode_model(w.outputs[i].1)),
        ),
    }
}

/// The text of each key and of each value.
pub open spec fn env_model(env: Seq<(String, String)>) -> Seq<(Seq<char>, Seq<char>)> {
    Seq::new(env.len(), |i: int| (env[i].0@, env[i].1@))
}

impl Context {
    pub open spec fn model(self) -> ContextModel {
        ContextModel {
            pid: self.pid@,
            env: env_model(self.env@),
            outputs: Seq::new(
                self.outputs.len() as nat,
                |i: int| (self.outputs[i].0@, self.outputs[i].1.model()),
            ),
        }
    }

    /// Each key of `env`, and each key of `outputs`, occurs once.
    pub open spec fn well_formed(self) -> bool {
        distinct_keys(self.model().env) && distinct_keys(self.model().outputs)
    }

    /// The environment variable `key`, if it is set. Where a key occurs more
    /// than once, the last entry counts.
    pub fn env_var(&self, key: &str) -> (found: Option<&String>)
        ensures
            match found {
                Some(value) => lookup(self.model().env, key@) == Some(value@),
                None => lookup(self.model().env, key@) is None,
            },
    {
        let wanted = key.to_owned();
        let ghost all = self.model().env;
        proof {
            assert(all.subrange(0, all.len() as int) =~= all);
        }
        let mut i: usize = self.env.len();
        while i > 0
            invariant
                i <= self.env.len(),
                wanted@ == key@,
                all == self.model().env,
                lookup(all, key@) == lookup(all.subrange(0, i as int), key@),
            decreases i,
        {
            i -= 1;
            let entry = &self.env[i];
            proof {
                let front = all.subrange(0, i + 1);
                assert(front.last() == all[i as int]);
                assert(front.drop_last() =~= all.subrange(0, i as int));
            }
            if entry.0 == wanted {
                return Some(&entry.1);
            }
        }
        None
    }

    /// The output of the earlier node `key`, if the context holds one. Where
    /// a key occurs more than once, the last entry counts.
    pub fn output(&self, key: &str) -> (found: Option<&StructuredValue>)
        ensures
            match found {
                Some(value) => lookup(self.model().outputs, key@) == Some(value.model()),
                None => lookup(self.model().outputs, key@) is None,
            },
    {
        let wanted = key.to_owned();
        let ghost all = self.model().outputs;
        proof {
            assert(all.subrange(0, all.len() as int) =~= all);
        }
        let mut i: usize = self.outputs.len();
        while i > 0
            invariant
                i <= self.outputs.len(),
                wanted@ == key@,
                all == self.model().outputs,
                lookup(all, key@) == lookup(all.subrange(0, i as int), key@),
            decreases i,
        {
            i -= 1;
            let entry = &self.outputs[i];
            proof {
                let front = all.subrange(0, i + 1);
                assert(front.last() == all[i as int]);
                assert(front.drop_last() =~= all.subrange(0, i as int));
            }
            if entry.0 == wanted {
                return Some(&entry.1);
            }
        }
        None
    }

    /// Builds the context that a request's wire context describes.
    pub fn from_wire(ctx: &WireContext) -> (out: Context)
        ensures
            out.model() == decode_context(ctx.model()),
            ctx.well_formed() ==> out.well_formed(),
    {
        let mut env: Vec<(String, String)> = Vec::new();
        let mut i: usize = 0;
        while i < ctx.env.len()
            invariant
                i <= ctx.env.len(),
                env.len() == i,
                forall|j: int|
                    0 <= j < i ==> (#[trigger] env[j]).0@ == ctx.env[j].0@ && env[j].1@
                        == ctx.env[j].1@,
            decreases ctx.env.len() - i,
        {
            let entry = &ctx.env[i];
            env.push((entry.0.clone(), entry.1.clone()));
            i += 1;
        }
        let mut outputs: Vec<(String, StructuredValue)> = Vec::new();
        let mut k: usize = 0;
        while k < ctx.outputs.len()
            invariant
                k <= ctx.outputs.len(),
                outputs.len() == k,
                forall|j: int|
                    0 <= j < k ==> (#[trigger] outputs[j]).0@ == ctx.outputs[j].0@
                        && outputs[j].1.model() == decode_model(ctx.outputs[j].1.model()),
            decreases ctx.outputs.len() - k,
        {
            let entry = &ctx.outputs[k];
            let value = decode(&entry.1);
            outputs.push((entry.0.clone(), value));
            k += 1;
        }
        let out = Context { pid: ctx.pid.clone(), env, outputs };
        proof {
            assert(out.model().env =~= ctx.model().env);
            assert(out.model().outputs =~= decode_context(ctx.model()).outputs);
        }
        out
    }
}

impl WireContext {
    pub open spec fn model(self) -> WireContextModel {
        WireContextModel {
            pid: self.pid@,
            env: env_model(self.env@),
            outputs: Seq::new(
                self.outputs.len() as nat,
                |i: int| (self.outputs[i].0@, self.outputs[i].1.model()),
            ),
        }
    }

    /// Each key of `env`, and each key of `outputs`, occurs once.
    pub open spec fn well_formed(self) -> bool {
        distinct_keys(self.model().env) && distinct_keys(self.model().outputs)
    }
}

impl Default for Context {
    /// The empty context: what an invocation gets when its request names
    /// none.
    fn default() -> (out: Context)
        ensures
            out.model() == empty_context(),
            out.well_formed(),
    {
        let out = Context { pid: String::new(), env: Vec::new(), outputs: Vec::new() };
        proof {
            assert(out.model().env =~= Seq::empty());
            assert(out.model().outputs =~= Seq::empty());
        }
        out
    }
}

} // verus!
