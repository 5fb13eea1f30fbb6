use vstd::prelude::*;

verus! {

/// The categories of provider rules that can be enabled or disabled as a whole.
#[derive(Clone, Copy, Debug, PartialEq, Eq, Structural)]
pub enum RuleCategory {
    Outbound,
    Blacklist,
    AllowOnly,
}

} // verus!
