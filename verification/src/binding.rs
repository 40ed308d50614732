//! The rule by which a connection binds to one principal.
//!
//! A connection binds on its first usable message and stays bound to that
//! principal for its whole life: a first message with a valid principal binds to
//! it, one without a principal binds to [`DEFAULT_PRINCIPAL`], and one with a
//! malformed principal is dropped and leaves the connection unbound.

use crate::text::{opt_str, same};
use vstd::prelude::*;

verus! {

/// Default principal for connections whose first message carries no principal.
pub const DEFAULT_PRINCIPAL: &'static str = "default";

/// The longest principal that is accepted, in characters.
pub const MAX_PRINCIPAL_LEN: usize = 64;

/// What to do with an ingress message, apart from doing it.
#[derive(Debug, PartialEq, Eq)]
pub enum IngressDecision {
    /// Bind the (currently unbound) connection to this principal and forward
    /// the message stamped with it. Comes only for the first usable message.
    Bind(String),
    /// Forward the message stamped with the already-bound principal.
    ForwardAs(String),
    /// Drop the message without forwarding; do not change the binding.
    Drop { reason: DropReason },
}

/// Why an ingress message was dropped.
#[derive(Debug, PartialEq, Eq)]
pub enum DropReason {
    /// First message carried a principal that failed format validation.
    InvalidPrincipal(String),
    /// Message claimed a principal different from the bound one.
    PrincipalConflict { bound: String, claimed: String },
}

/// An [`IngressDecision`] with its strings as character sequences.
pub enum Decision {
    /// See [`IngressDecision::Bind`].
    Bind(Seq<char>),
    /// See [`IngressDecision::ForwardAs`].
    ForwardAs(Seq<char>),
    /// See [`IngressDecision::Drop`].
    Drop(Refusal),
}

/// A [`DropReason`] with its strings as character sequences.
pub enum Refusal {
    /// See [`DropReason::InvalidPrincipal`].
    InvalidPrincipal(Seq<char>),
    /// See [`DropReason::PrincipalConflict`].
    PrincipalConflict { bound: Seq<char>, claimed: Seq<char> },
}

impl View for DropReason {
    type V = Refusal;

    open spec fn view(&self) -> Refusal {
        match *self {
            DropReason::InvalidPrincipal(p) => Refusal::InvalidPrincipal(p@),
            DropReason::PrincipalConflict { bound, claimed } => Refusal::PrincipalConflict {
                bound: bound@,
                claimed: claimed@,
            },
        }
    }
}

impl View for IngressDecision {
    type V = Decision;

    open spec fn view(&self) -> Decision {
        match *self {
            IngressDecision::Bind(p) => Decision::Bind(p@),
            IngressDecision::ForwardAs(p) => Decision::ForwardAs(p@),
            IngressDecision::Drop { reason } => Decision::Drop(reason@),
        }
    }
}

/// A character that a principal may hold: `[A-Za-z0-9_-]`.
pub open spec fn principal_char(c: char) -> bool {
    'a' <= c <= 'z' || 'A' <= c <= 'Z' || '0' <= c <= '9' || c == '_' || c == '-'
}

/// A well-formed principal: 1 to 64 characters from `[A-Za-z0-9_-]`.
pub open spec fn valid_principal(p: Seq<char>) -> bool {
    &&& 0 < p.len() <= MAX_PRINCIPAL_LEN
    &&& forall|i: int| 0 <= i < p.len() ==> principal_char(#[trigger] p[i])
}

/// The binding decision, from the connection's binding so far and the principal
/// that the message carries.
pub open spec fn decision(current: Option<Seq<char>>, claimed: Option<Seq<char>>) -> Decision {
    match (current, claimed) {
        (None, None) => Decision::Bind(DEFAULT_PRINCIPAL@),
        (None, Some(p)) => if valid_principal(p) {
            Decision::Bind(p)
        } else {
            Decision::Drop(Refusal::InvalidPrincipal(p))
        },
        (Some(b), None) => Decision::ForwardAs(b),
        (Some(b), Some(p)) => if p == b {
            Decision::ForwardAs(b)
        } else {
            Decision::Drop(Refusal::PrincipalConflict { bound: b, claimed: p })
        },
    }
}

impl Decision {
    /// The principal that the message goes out under; `None` where it is dropped.
    pub open spec fn forward_as(self) -> Option<Seq<char>> {
        match self {
            Decision::Bind(p) => Some(p),
            Decision::ForwardAs(p) => Some(p),
            Decision::Drop(_) => None,
        }
    }

    /// The principal that the connection binds to by this message, if it does.
    pub open spec fn newly_bound(self) -> Option<Seq<char>> {
        match self {
            Decision::Bind(p) => Some(p),
            _ => None,
        }
    }
}

/// Validate a principal string before binding: 1-64 characters from the
/// `[A-Za-z0-9_-]` set.
pub fn is_valid_principal(p: &str) -> (r: bool)
    ensures
        r == valid_principal(p@),
{
    let mut rest = p.chars();
    let mut count: usize = 0;
    loop
        invariant
            count <= MAX_PRINCIPAL_LEN,
            count <= p@.len(),
            vstd::std_specs::iter::IteratorSpec::remaining(&rest) == p@.skip(count as int),
            forall|i: int| 0 <= i < count ==> principal_char(#[trigger] p@[i]),
        decreases p@.len() - count,
    {
        match rest.next() {
            None => {
                return count > 0;
            },
            Some(c) => {
                assert(c == p@[count as int]);
                let letter = ('a' <= c && c <= 'z') || ('A' <= c && c <= 'Z');
                let allowed = letter || ('0' <= c && c <= '9') || c == '_' || c == '-';
                if !allowed || count == MAX_PRINCIPAL_LEN {
                    return false;
                }
                count += 1;
            },
        }
    }
}

/// Pure binding decision: given the connection's current binding and the
/// principal field of the incoming message, decide whether to bind, forward,
/// or drop.
///
/// First message (`current_binding == None`):
/// * `Some(p)` valid   -> `Bind(p)`
/// * `Some(p)` invalid -> `Drop(InvalidPrincipal)` (stays unbound)
/// * `None`            -> `Bind("default")`
///
/// Bound connection (`current_binding == Some(b)`):
/// * `None`            -> `ForwardAs(b)`        (auto-attribution)
/// * `Some(p) == b`    -> `ForwardAs(b)`
/// * `Some(p) != b`    -> `Drop(PrincipalConflict)` (binding unchanged)
pub fn decide_ingress(
    current_binding: Option<&str>,
    message_principal: Option<&str>,
) -> (r: IngressDecision)
    ensures
        r@ == decision(opt_str(current_binding), opt_str(message_principal)),
{
    match (current_binding, message_principal) {
        (None, Some(p)) => {
            if is_valid_principal(p) {
                IngressDecision::Bind(p.to_owned())
            } else {
                IngressDecision::Drop { reason: DropReason::InvalidPrincipal(p.to_owned()) }
            }
        },
        (None, None) => IngressDecision::Bind(DEFAULT_PRINCIPAL.to_owned()),
        (Some(b), None) => IngressDecision::ForwardAs(b.to_owned()),
        (Some(b), Some(p)) => {
            if same(p, b) {
                IngressDecision::ForwardAs(b.to_owned())
            } else {
                IngressDecision::Drop {
                    reason: DropReason::PrincipalConflict {
                        bound: b.to_owned(),
                        claimed: p.to_owned(),
                    },
                }
            }
        },
    }
}

/// The default principal is itself well-formed.
proof fn default_principal_is_valid()
    ensures
        valid_principal(DEFAULT_PRINCIPAL@),
{
    reveal_strlit("default");
}

/// Whatever a connection binds to is a well-formed principal.
pub proof fn binding_is_valid(claimed: Option<Seq<char>>)
    ensures
        decision(None, claimed) matches Decision::Bind(p) ==> valid_principal(p),
{
    default_principal_is_valid();
}

/// An unbound connection binds by every message but one that carries a
/// malformed principal; that one is dropped.
pub proof fn unbound_binds_unless_malformed(claimed: Option<Seq<char>>)
    ensures
        (decision(None, claimed) is Bind) == (claimed matches Some(p) ==> valid_principal(p)),
        (decision(None, claimed) is Drop) == (claimed matches Some(p) && !valid_principal(p)),
{
}

/// A bound connection never binds again: a message that claims no other
/// principal is forwarded under the bound one, and any other is dropped.
pub proof fn bound_never_rebinds(bound: Seq<char>, claimed: Option<Seq<char>>)
    ensures
        decision(Some(bound), claimed).newly_bound() is None,
        decision(Some(bound), claimed).forward_as() == (if claimed is None || claimed == Some(
            bound,
        ) {
            Some(bound)
        } else {
            None
        }),
{
}

/// What a well-formed principal is: 1 to 64 characters, each a letter or digit of
/// ASCII, an underscore or a hyphen.
pub proof fn what_a_valid_principal_is(p: Seq<char>)
    ensures
        valid_principal(p) <==> 1 <= p.len() <= 64 && forall|i: int|
            0 <= i < p.len() ==> {
                let c = #[trigger] p[i];
                'a' <= c <= 'z' || 'A' <= c <= 'Z' || '0' <= c <= '9' || c == '_' || c == '-'
            },
{
    if forall|i: int|
        0 <= i < p.len() ==> {
            let c = #[trigger] p[i];
            'a' <= c <= 'z' || 'A' <= c <= 'Z' || '0' <= c <= '9' || c == '_' || c == '-'
        } {
        assert forall|i: int| 0 <= i < p.len() implies principal_char(#[trigger] p[i]) by {}
    }
    if valid_principal(p) {
        assert forall|i: int| 0 <= i < p.len() implies {
            let c = #[trigger] p[i];
            'a' <= c <= 'z' || 'A' <= c <= 'Z' || '0' <= c <= '9' || c == '_' || c == '-'
        } by {
            assert(principal_char(p[i]));
        }
    }
}

/// A first message binds its connection to the principal that it carries, and to
/// `default` where it carries none; one that carries a malformed principal is
/// refused with that principal.
pub proof fn first_message_binds_to_what_it_carries(p: Seq<char>)
    ensures
        decision(None, None) == Decision::Bind("default"@),
        valid_principal(p) ==> decision(None, Some(p)) == Decision::Bind(p),
        !valid_principal(p) ==> decision(None, Some(p)) == Decision::Drop(
            Refusal::InvalidPrincipal(p),
        ),
{
}

/// On a bound connection, a message without a principal, or with the bound one,
/// is forwarded as the bound one; any other is refused with both principals.
pub proof fn later_messages_keep_to_the_binding(bound: Seq<char>, p: Seq<char>)
    ensures
        decision(Some(bound), None) == Decision::ForwardAs(bound),
        decision(Some(bound), Some(bound)) == Decision::ForwardAs(bound),
        p != bound ==> decision(Some(bound), Some(p)) == Decision::Drop(
            Refusal::PrincipalConflict { bound, claimed: p },
        ),
{
}

/// A decision and a refusal are known by their kind and their texts.
pub proof fn decisions_keep_their_texts(
    decided: IngressDecision,
    reason: DropReason,
    p: String,
    q: String,
)
    ensures
        decided == IngressDecision::Bind(p) ==> decided@ == Decision::Bind(p@),
        decided == IngressDecision::ForwardAs(p) ==> decided@ == Decision::ForwardAs(p@),
        decided == (IngressDecision::Drop { reason }) ==> decided@ == Decision::Drop(reason@),
        reason == DropReason::InvalidPrincipal(p) ==> reason@ == Refusal::InvalidPrincipal(p@),
        reason == (DropReason::PrincipalConflict { bound: p, claimed: q }) ==> reason@ == (
        Refusal::PrincipalConflict { bound: p@, claimed: q@ }),
{
}

} // verus!
