//! Channel access flags and sets of them, as held by channel roles.

use vstd::prelude::*;

verus! {

/// A permission that a channel role can grant.
#[derive(Clone, Copy, Debug, PartialEq, Eq, Structural)]
pub enum ChannelAccessFlag {
    InviteSelf,
    InviteOther,
    AlwaysSend,
    SetSimpleMode,
    SetKey,
    Topic,
    OpSelf,
    OpGrant,
    VoiceSelf,
    VoiceGrant,
    BanView,
    BanAdd,
    BanRemoveAny,
    QuietView,
    QuietAdd,
    QuietRemoveAny,
    ExemptView,
    ExemptAdd,
    ExemptRemoveAny,
    InvexView,
    InvexAdd,
    InvexRemoveAny,
    AccessView,
    AccessEdit,
    RoleView,
    RoleEdit,
}

/// A set of channel access flags.
#[derive(Debug)]
pub struct ChannelAccessSet {
    flags: Vec<ChannelAccessFlag>,
}

impl View for ChannelAccessSet {
    type V = Set<ChannelAccessFlag>;

    closed spec fn view(&self) -> Set<ChannelAccessFlag> {
        self.flags@.to_set()
    }
}

impl ChannelAccessSet {
    /// The empty set.
    pub fn new() -> (r: ChannelAccessSet)
        ensures
            r@ == Set::<ChannelAccessFlag>::empty(),
    {
        let r = ChannelAccessSet { flags: Vec::new() };
        assert(r@ =~= Set::<ChannelAccessFlag>::empty());
        r
    }

    /// The set holding exactly the given flags.
    pub fn from_flags(flags: Vec<ChannelAccessFlag>) -> (r: ChannelAccessSet)
        ensures
            r@ == flags@.to_set(),
    {
        ChannelAccessSet { flags }
    }

    /// Add `flag` to the set.
    pub fn add(&mut self, flag: ChannelAccessFlag)
        ensures
            final(self)@ == old(self)@.insert(flag),
    {
        let ghost before = self.flags@;
        self.flags.push(flag);
        proof {
            assert(self.flags@ == before.push(flag));
            assert(self.flags@.to_set() =~= before.to_set().insert(flag)) by {
                assert forall|f: ChannelAccessFlag| self.flags@.to_set().contains(f) <==> before.to_set().insert(flag).contains(f) by {
                    if self.flags@.to_set().contains(f) {
                        let i = choose|i: int| 0 <= i < self.flags@.len() && self.flags@[i] == f;
                        if i < before.len() {
                            assert(before[i] == f);
                        }
                    }
                    if before.to_set().contains(f) {
                        let i = choose|i: int| 0 <= i < before.len() && before[i] == f;
                        assert(self.flags@[i] == f);
                    }
                    if f == flag {
                        assert(self.flags@[before.len() as int] == f);
                    }
                }
            }
        }
    }

    /// Whether `flag` is in the set.
    pub fn is_set(&self, flag: ChannelAccessFlag) -> (r: bool)
        ensures
            r == self@.contains(flag),
    {
        let mut i: usize = 0;
        while i < self.flags.len()
            invariant
                i <= self.flags@.len(),
                forall|j: int| 0 <= j < i ==> self.flags@[j] != flag,
            decreases self.flags@.len() - i,
        {
            if self.flags[i] == flag {
                proof {
                    assert(self.flags@.to_set().contains(self.flags@[i as int]));
                }
                return true;
            }
            i = i + 1;
        }
        false
    }

    /// Whether this set holds every flag of `other`.
    pub fn dominates(&self, other: &ChannelAccessSet) -> (r: bool)
        ensures
            r == other@.subset_of(self@),
    {
        let mut i: usize = 0;
        while i < other.flags.len()
            invariant
                i <= other.flags@.len(),
                forall|j: int| 0 <= j < i ==> self@.contains(#[trigger] other.flags@[j]),
            decreases other.flags@.len() - i,
        {
            if !self.is_set(other.flags[i]) {
                proof {
                    assert(other@.contains(other.flags@[i as int]));
                }
                return false;
            }
            i = i + 1;
        }
        proof {
            assert forall|f: ChannelAccessFlag| other@.contains(f) implies self@.contains(f) by {
                let j = choose|j: int| 0 <= j < other.flags@.len() && other.flags@[j] == f;
            }
        }
        true
    }

    /// A copy of this set.
    pub fn duplicate(&self) -> (r: ChannelAccessSet)
        ensures
            r@ == self@,
    {
        ChannelAccessSet { flags: self.flags.clone() }
    }
}

/// Domination between access sets is reflexive and transitive: every set
/// dominates itself, and a set dominating one that dominates a third
/// dominates that third.
pub proof fn law_dominates_preorder(a: Set<ChannelAccessFlag>, b: Set<ChannelAccessFlag>, c: Set<ChannelAccessFlag>)
    ensures
        a.subset_of(a),
        b.subset_of(a) && c.subset_of(b) ==> c.subset_of(a),
{
}

} // verus!
