use vstd::prelude::*;
use vstd::string::StringSliceAdditionalSpecFns;

verus! {

/// Which side of a negotiation a party or an identifier belongs to.
#[derive(Clone, Copy, Debug, PartialEq, Eq, Structural)]
pub enum Owner {
    Provider,
    Requestor,
}

impl Owner {
    pub open spec fn spec_swap(self) -> Owner {
        match self {
            Owner::Provider => Owner::Requestor,
            Owner::Requestor => Owner::Provider,
        }
    }

    /// The opposite role.
    pub fn swap(self) -> (r: Owner)
        ensures
            r == self.spec_swap(),
    {
        match self {
            Owner::Provider => Owner::Requestor,
            Owner::Requestor => Owner::Provider,
        }
    }
}

/// The identity of a node: twenty bytes.
#[derive(Clone, Copy, Debug, PartialEq, Eq)]
pub struct NodeId {
    pub bytes: [u8; 20],
}

impl NodeId {
    /// Whether two identities are the same.
    pub fn same(&self, other: &NodeId) -> (r: bool)
        ensures
            r == (self.bytes@ == other.bytes@),
    {
        let mut i: usize = 0;
        while i < 20
            invariant
                0 <= i <= 20,
                self.bytes@.len() == 20,
                other.bytes@.len() == 20,
                forall|j: int| 0 <= j < i ==> self.bytes@[j] == other.bytes@[j],
            decreases 20 - i,
        {
            if self.bytes[i] != other.bytes[i] {
                return false;
            }
            i = i + 1;
        }
        assert(self.bytes@ =~= other.bytes@);
        true
    }
}

/// The value of a hexadecimal digit, as an ASCII byte.
pub open spec fn hex_value(b: u8) -> int {
    if 48 <= b <= 57 {
        b - 48
    } else if 97 <= b <= 102 {
        b - 87
    } else {
        b - 55
    }
}

pub open spec fn is_hex(b: u8) -> bool {
    (48 <= b <= 57) || (97 <= b <= 102) || (65 <= b <= 70)
}

/// Whether `s` is the text of a node identity: `0x` and forty hexadecimal digits.
pub open spec fn node_id_text(s: Seq<u8>) -> bool {
    &&& s.len() == 42
    &&& s[0] == 48 && s[1] == 120
    &&& forall|i: int| 2 <= i < 42 ==> is_hex(#[trigger] s[i])
}

/// The bytes that a node identity text writes, two digits per byte, high digit first.
pub open spec fn node_id_bytes(s: Seq<u8>) -> Seq<u8> {
    Seq::new(20, |i: int| (hex_value(s[2 + 2 * i]) * 16 + hex_value(s[3 + 2 * i])) as u8)
}

/// Relies on `ya_client_model::NodeId::from_str`: it accepts exactly `0x` followed by forty
/// hexadecimal digits of either case, and reads two digits per byte, high digit first.
#[verifier::external_body]
fn node_id_from_str(s: &str) -> (r: Option<[u8; 20]>)
    ensures
        r is Some <==> node_id_text(s.spec_bytes()),
        r matches Some(b) ==> b@ == node_id_bytes(s.spec_bytes()),
{
    match s.parse::<ya_client_model::NodeId>() {
        Ok(id) => Some(id.into_array()),
        Err(_) => None,
    }
}

/// A caller identity that is not the text of a node identity.
#[derive(Clone, Debug, PartialEq, Eq)]
pub struct CallerParseError {
    pub caller: String,
}

/// Reads the identity of a remote caller.
pub fn parse_caller(caller: &str) -> (r: Result<NodeId, CallerParseError>)
    ensures
        match r {
            Ok(id) => node_id_text(caller.spec_bytes()) && id.bytes@ == node_id_bytes(
                caller.spec_bytes(),
            ),
            Err(e) => !node_id_text(caller.spec_bytes()) && e.caller@ == caller@,
        },
{
    match node_id_from_str(caller) {
        Some(bytes) => Ok(NodeId { bytes }),
        None => Err(CallerParseError { caller: caller.to_owned() }),
    }
}

} // verus!
