//! The processor chain: an ordered sequence of record-transforming stages,
//! run strictly one after another on a record.

use vstd::prelude::*;
use crate::error::Error;
use crate::select::{SelectProcessor, select_spec};
use crate::value::Value;

verus! {

/// A chain stage. The stage set is closed; selection is its concrete kind.
#[derive(Debug)]
pub enum ProcessorKind {
    Select(SelectProcessor),
}

/// What one stage leaves of an object record's entries.
pub open spec fn stage_spec(p: ProcessorKind, s: Seq<(Seq<char>, Value)>) -> Seq<
    (Seq<char>, Value),
> {
    match p {
        ProcessorKind::Select(sp) => select_spec(sp.select_type, sp.fields@, s),
    }
}

/// What the whole chain leaves of an object record's entries: stage `i`'s
/// output is stage `i + 1`'s input.
pub open spec fn chain_spec(stages: Seq<ProcessorKind>, s: Seq<(Seq<char>, Value)>) -> Seq<
    (Seq<char>, Value),
>
    decreases stages.len(),
{
    if stages.len() == 0 {
        s
    } else {
        chain_spec(stages.drop_first(), stage_spec(stages[0], s))
    }
}

impl ProcessorKind {
    /// The stage's kind keyword.
    pub fn kind(&self) -> (r: &'static str)
        ensures
            self matches ProcessorKind::Select(_) ==> r@ == "select"@,
    {
        match self {
            ProcessorKind::Select(p) => p.kind(),
        }
    }

    /// Whether a missing input field is tolerated as a no-op.
    pub fn ignore_missing(&self) -> (r: bool)
        ensures
            self matches ProcessorKind::Select(_) ==> r,
    {
        match self {
            ProcessorKind::Select(p) => p.ignore_missing(),
        }
    }

    /// Transforms a record, consuming it; fails with a value-type error
    /// when the record is not an object map.
    pub fn exec_mut(&self, val: Value) -> (r: Result<Value, Error>)
        requires
            val matches Value::Object(m) ==> m.wf(),
        ensures
            match val {
                Value::Object(m) => r matches Ok(out) && out matches Value::Object(m2) && m2.wf()
                    && m2.entries_view() == stage_spec(*self, m.entries_view()),
                _ => r == Err::<Value, Error>(Error::ValueMustBeMap),
            },
    {
        match self {
            ProcessorKind::Select(p) => p.exec_mut(val),
        }
    }
}

/// Runs every stage in order on `val`: stage `i`'s output is stage
/// `i + 1`'s input, and the first failure aborts the record. The one
/// concrete stage is missing-tolerant by construction, so a failure here is
/// a value-type error, never a missing-field condition.
#[verifier::loop_isolation(false)]
pub fn run_processors(stages: &Vec<ProcessorKind>, val: Value) -> (r: Result<Value, Error>)
    requires
        val matches Value::Object(m) ==> m.wf(),
    ensures
        match val {
            Value::Object(m) => r matches Ok(out) && out matches Value::Object(m2) && m2.wf()
                && m2.entries_view() == chain_spec(stages@, m.entries_view()),
            _ => if stages@.len() == 0 {
                r matches Ok(out) && out == val
            } else {
                r == Err::<Value, Error>(Error::ValueMustBeMap)
            },
        },
{
    let is_object = match &val {
        Value::Object(_) => true,
        _ => false,
    };
    let ghost s0 = match &val {
        Value::Object(m) => m.entries_view(),
        _ => Seq::empty(),
    };
    let mut cur = val;
    let n = stages.len();
    let mut i: usize = 0;
    proof {
        assert(stages@.skip(0) =~= stages@);
    }
    while i < n
        invariant
            0 <= i <= n,
            n == stages@.len(),
            is_object ==> (cur matches Value::Object(m2) && m2.wf() && chain_spec(stages@, s0)
                == chain_spec(stages@.skip(i as int), m2.entries_view())),
            !is_object ==> i == 0 && cur == val,
        decreases n - i,
    {
        proof {
            assert(stages@.skip(i as int)[0] == stages@[i as int]);
            assert(stages@.skip(i as int).drop_first() =~= stages@.skip(i as int + 1));
        }
        cur = match stages[i].exec_mut(cur) {
            Ok(out) => out,
            Err(e) => {
                return Err(e);
            },
        };
        i += 1;
    }
    Ok(cur)
}

} // verus!
