//! Delivery enablement and orchestration decisions: which mechanisms run,
//! and how their outcomes relate to the run's exit status.

use vstd::prelude::*;
use vstd::string::StringExecFns;
use crate::json::{push_char, str_chars};
use crate::record::{view_of_opt_string, MergeRecord};

verus! {

/// A mechanism is enabled exactly when its configuration flag holds the
/// literal `true`; an absent flag or any other value fails closed.
pub open spec fn spec_enabled(flag: Option<Seq<char>>) -> bool {
    flag == Some("true"@)
}

/// Reads a mechanism's enablement from its configuration value.
pub fn is_enabled(flag_value: &Option<String>) -> (r: bool)
    ensures
        r == spec_enabled(view_of_opt_string(*flag_value)),
{
    match flag_value {
        Some(v) => {
            let lit: String = String::from_str("true");
            *v == lit
        },
        None => false,
    }
}

pub open spec fn spec_ascii_upper(c: char) -> char {
    let v = c as u32;
    if 0x61 <= v && v <= 0x7A {
        ((v - 0x20) as u32) as char
    } else {
        c
    }
}

/// The name mapped to upper case, ASCII letters only.
pub open spec fn spec_uppercase(s: Seq<char>) -> Seq<char>
    decreases s.len(),
{
    if s.len() == 0 {
        Seq::empty()
    } else {
        spec_uppercase(s.drop_last()) + seq![spec_ascii_upper(s.last())]
    }
}

/// The configuration key that carries a mechanism's enablement flag.
pub open spec fn spec_enablement_key(name: Seq<char>) -> Seq<char> {
    "DELIVERY_"@ + spec_uppercase(name) + "_ENABLED"@
}

/// Builds the configuration key of a mechanism's enablement flag from its
/// name.
pub fn enablement_key(name: &str) -> (r: String)
    ensures
        r@ == spec_enablement_key(name@),
{
    let cs = str_chars(name);
    let mut upper = String::new();
    let mut i: usize = 0;
    while i < cs.len()
        invariant
            i <= cs.len(),
            cs@ == name@,
            upper@ == spec_uppercase(cs@.take(i as int)),
        decreases cs.len() - i,
    {
        let ghost before = upper@;
        let c = cs[i];
        let v = c as u32;
        if 0x61 <= v && v <= 0x7A {
            match char::from_u32(v - 0x20) {
                Some(u) => {
                    push_char(&mut upper, u);
                },
                None => {
                    proof {
                        assert(false);
                    }
                },
            }
        } else {
            push_char(&mut upper, c);
        }
        proof {
            assert(cs@.take(i as int + 1).drop_last() =~= cs@.take(i as int));
            assert(cs@.take(i as int + 1).last() == cs@[i as int]);
            assert(upper@ =~= before + seq![spec_ascii_upper(cs@[i as int])]);
        }
        i += 1;
    }
    proof {
        assert(cs@.take(cs@.len() as int) =~= cs@);
    }
    let mut out = String::new();
    out.append("DELIVERY_");
    out.append(upper.as_str());
    out.append("_ENABLED");
    proof {
        assert(out@ =~= spec_enablement_key(name@));
    }
    out
}

/// The recorded outcome of one delivery mechanism in a run.
pub enum DeliveryOutcome {
    Disabled,
    Delivered,
    Failed,
}

/// A failure of one of the stages that run before any delivery; each of
/// them aborts the run with nothing delivered.
pub enum StageFailure {
    Configuration,
    UpstreamFetch,
    FilterData,
    Generation,
}

/// The digest is generated and delivered only when the filtered record
/// set is non-empty; an empty set ends the run early, with no call to the
/// generation backend and no delivery.
pub fn should_send_digest(filtered: &Vec<MergeRecord>) -> (r: bool)
    ensures
        r == (filtered@.len() > 0),
{
    filtered.len() > 0
}

/// Decides, for each configured mechanism, whether it runs: each entry
/// depends only on that mechanism's own flag, so no mechanism's state or
/// failure can keep another from being attempted.
pub fn plan_deliveries(flags: &Vec<Option<String>>) -> (r: Vec<bool>)
    ensures
        r@.len() == flags@.len(),
        forall|i: int|
            0 <= i < r@.len() ==> r@[i] == spec_enabled(view_of_opt_string(flags@[i])),
{
    let mut plan: Vec<bool> = Vec::new();
    let mut i: usize = 0;
    while i < flags.len()
        invariant
            i <= flags.len(),
            plan@.len() == i,
            forall|j: int|
                0 <= j < i ==> plan@[j] == spec_enabled(view_of_opt_string(flags@[j])),
        decreases flags.len() - i,
    {
        let enabled = is_enabled(&flags[i]);
        plan.push(enabled);
        i += 1;
    }
    plan
}

/// The run's exit status: success exactly when no upstream stage failed.
/// Delivery outcomes are recorded but never affect it — a failed channel
/// is logged and the run still completes.
pub fn run_exit_success(
    upstream_failure: &Option<StageFailure>,
    delivery_outcomes: &Vec<DeliveryOutcome>,
) -> (r: bool)
    ensures
        r == (upstream_failure is None),
{
    match upstream_failure {
        None => true,
        Some(_) => false,
    }
}

} // verus!
