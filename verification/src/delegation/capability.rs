//! The permissions that a registered participant can hold.

use vstd::prelude::*;
use crate::text::{concat, text_eq};

verus! {

/// A named permission.
#[derive(Debug, Clone, Copy, PartialEq, Eq, Structural, Hash)]
pub enum Capability {
    /// May read journal content and see participants.
    Read,
    /// May submit prompts.
    Submit,
    /// May fork blocks into new branches.
    Fork,
    /// May delegate work to others.
    Delegate,
    /// May approve or reject submitted work.
    Approve,
    /// Holds every other capability too.
    Admin,
}

/// The capability that a text names.
pub open spec fn capability_named(s: Seq<char>) -> Option<Capability> {
    if s == "read"@ {
        Some(Capability::Read)
    } else if s == "submit"@ {
        Some(Capability::Submit)
    } else if s == "fork"@ {
        Some(Capability::Fork)
    } else if s == "delegate"@ {
        Some(Capability::Delegate)
    } else if s == "approve"@ {
        Some(Capability::Approve)
    } else if s == "admin"@ {
        Some(Capability::Admin)
    } else {
        None
    }
}

impl Capability {
    /// The wire name of the capability.
    pub open spec fn name(self) -> Seq<char> {
        match self {
            Capability::Read => "read"@,
            Capability::Submit => "submit"@,
            Capability::Fork => "fork"@,
            Capability::Delegate => "delegate"@,
            Capability::Approve => "approve"@,
            Capability::Admin => "admin"@,
        }
    }

    /// What a human user holds by default.
    pub open spec fn user_defaults() -> Set<Capability> {
        set![
            Capability::Read,
            Capability::Submit,
            Capability::Fork,
            Capability::Delegate,
            Capability::Approve,
        ]
    }

    /// What an agent holds by default: all that a user holds but approval.
    pub open spec fn agent_defaults() -> Set<Capability> {
        set![Capability::Read, Capability::Submit, Capability::Fork, Capability::Delegate]
    }

    /// What an observer holds by default.
    pub open spec fn observer_defaults() -> Set<Capability> {
        set![Capability::Read]
    }

    pub fn as_str(&self) -> (r: &'static str)
        ensures
            r@ == self.name(),
    {
        match self {
            Capability::Read => "read",
            Capability::Submit => "submit",
            Capability::Fork => "fork",
            Capability::Delegate => "delegate",
            Capability::Approve => "approve",
            Capability::Admin => "admin",
        }
    }

    /// Reads a wire name; any other text is refused with a message that
    /// quotes it.
    pub fn parse(s: &str) -> (r: Result<Capability, String>)
        ensures
            match r {
                Ok(c) => capability_named(s@) == Some(c),
                Err(e) => capability_named(s@) is None && e@ == "Invalid capability: "@ + s@,
            },
    {
        if text_eq(s, "read") {
            Ok(Capability::Read)
        } else if text_eq(s, "submit") {
            Ok(Capability::Submit)
        } else if text_eq(s, "fork") {
            Ok(Capability::Fork)
        } else if text_eq(s, "delegate") {
            Ok(Capability::Delegate)
        } else if text_eq(s, "approve") {
            Ok(Capability::Approve)
        } else if text_eq(s, "admin") {
            Ok(Capability::Admin)
        } else {
            Err(concat("Invalid capability: ", s))
        }
    }

    /// Every capability, each once.
    pub fn all() -> (r: Vec<Capability>)
        ensures
            r@.no_duplicates(),
            forall|c: Capability| r@.contains(c),
    {
        let r = vec![
            Capability::Read,
            Capability::Submit,
            Capability::Fork,
            Capability::Delegate,
            Capability::Approve,
            Capability::Admin,
        ];
        proof {
            assert forall|c: Capability| r@.contains(c) by {
                match c {
                    Capability::Read => assert(r@[0] == c),
                    Capability::Submit => assert(r@[1] == c),
                    Capability::Fork => assert(r@[2] == c),
                    Capability::Delegate => assert(r@[3] == c),
                    Capability::Approve => assert(r@[4] == c),
                    Capability::Admin => assert(r@[5] == c),
                }
            }
        }
        r
    }

    /// The default capabilities of a human user, each once.
    pub fn default_user() -> (r: Vec<Capability>)
        ensures
            r@.no_duplicates(),
            r@.to_set() == Capability::user_defaults(),
    {
        let r = vec![
            Capability::Read,
            Capability::Submit,
            Capability::Fork,
            Capability::Delegate,
            Capability::Approve,
        ];
        proof {
            assert(r@[0] == Capability::Read && r@[1] == Capability::Submit && r@[2]
                == Capability::Fork && r@[3] == Capability::Delegate && r@[4]
                == Capability::Approve);
            assert(r@.to_set() =~= Capability::user_defaults());
        }
        r
    }

    /// The default capabilities of an agent, each once.
    pub fn default_agent() -> (r: Vec<Capability>)
        ensures
            r@.no_duplicates(),
            r@.to_set() == Capability::agent_defaults(),
    {
        let r = vec![Capability::Read, Capability::Submit, Capability::Fork, Capability::Delegate];
        proof {
            assert(r@[0] == Capability::Read && r@[1] == Capability::Submit && r@[2]
                == Capability::Fork && r@[3] == Capability::Delegate);
            assert(r@.to_set() =~= Capability::agent_defaults());
        }
        r
    }

    /// The default capabilities of an observer.
    pub fn default_observer() -> (r: Vec<Capability>)
        ensures
            r@.no_duplicates(),
            r@.to_set() == Capability::observer_defaults(),
    {
        let r = vec![Capability::Read];
        proof {
            assert(r@[0] == Capability::Read);
            assert(r@.to_set() =~= Capability::observer_defaults());
        }
        r
    }
}

impl std::str::FromStr for Capability {
    type Err = String;

    /// Reads a wire name, as `parse` does.
    fn from_str(s: &str) -> (r: Result<Self, Self::Err>)
        ensures
            match r {
                Ok(c) => capability_named(s@) == Some(c),
                Err(e) => capability_named(s@) is None && e@ == "Invalid capability: "@ + s@,
            },
    {
        Capability::parse(s)
    }
}

/// A set of capabilities. Holding `Admin` counts as holding all.
///
/// The set is kept as a list without repeats. What such a list holds is
/// known to the proofs; what a hash set of capabilities holds is not, as
/// nothing is proved of a derived hash.
#[derive(Debug)]
pub struct CapabilitySet {
    capabilities: Vec<Capability>,
}

impl View for CapabilitySet {
    type V = Set<Capability>;

    closed spec fn view(&self) -> Set<Capability> {
        self.capabilities@.to_set()
    }
}

fn position_of(v: &Vec<Capability>, cap: Capability) -> (r: Option<usize>)
    ensures
        match r {
            Some(i) => i < v@.len() && v@[i as int] == cap,
            None => !v@.contains(cap),
        },
{
    let mut i: usize = 0;
    while i < v.len()
        invariant
            i <= v@.len(),
            forall|j: int| 0 <= j < i ==> v@[j] != cap,
        decreases v@.len() - i,
    {
        if v[i] == cap {
            return Some(i);
        }
        i = i + 1;
    }
    None
}

impl CapabilitySet {
    /// No capability occurs twice in the list that stands for the set.
    #[verifier::type_invariant]
    spec fn well_formed(&self) -> bool {
        self.capabilities@.no_duplicates()
    }

    /// The order in which the set lists its members.
    pub closed spec fn listed(&self) -> Seq<Capability> {
        self.capabilities@
    }

    /// Whether the set grants `cap`, by holding it or by holding `Admin`.
    pub open spec fn grants(&self, cap: Capability) -> bool {
        self@.contains(Capability::Admin) || self@.contains(cap)
    }

    /// The empty set.
    pub fn new() -> (r: CapabilitySet)
        ensures
            r@ == Set::<Capability>::empty(),
    {
        let r = CapabilitySet { capabilities: Vec::new() };
        proof {
            assert(r@ =~= Set::<Capability>::empty());
        }
        r
    }

    /// The set of the capabilities in a list; repeats count once.
    pub fn from_set(capabilities: Vec<Capability>) -> (r: CapabilitySet)
        ensures
            r@ == capabilities@.to_set(),
    {
        let mut r = CapabilitySet::new();
        let mut i: usize = 0;
        while i < capabilities.len()
            invariant
                i <= capabilities@.len(),
                r@ == capabilities@.take(i as int).to_set(),
            decreases capabilities@.len() - i,
        {
            proof {
                let a = capabilities@.take(i as int);
                let b = capabilities@.take(i + 1);
                assert(b =~= a.push(capabilities@[i as int]));
                assert(b.to_set() =~= a.to_set().insert(capabilities@[i as int])) by {
                    assert forall|c: Capability| b.contains(c) <==> (a.contains(c) || c
                        == capabilities@[i as int]) by {
                        if a.contains(c) {
                            let j = choose|j: int| 0 <= j < a.len() && a[j] == c;
                            assert(b[j] == c);
                        }
                        if c == capabilities@[i as int] {
                            assert(b[i as int] == c);
                        }
                    }
                }
            }
            r.add(capabilities[i]);
            i = i + 1;
        }
        proof {
            assert(capabilities@.take(i as int) =~= capabilities@);
        }
        r
    }

    /// Whether the set grants `cap`; `Admin` grants everything.
    pub fn has(&self, cap: Capability) -> (r: bool)
        ensures
            r == self.grants(cap),
    {
        position_of(&self.capabilities, Capability::Admin).is_some() || position_of(
            &self.capabilities,
            cap,
        ).is_some()
    }

    /// Adds a capability to the set.
    pub fn add(&mut self, cap: Capability)
        ensures
            final(self)@ == old(self)@.insert(cap),
    {
        proof {
            use_type_invariant(&*self);
        }
        if position_of(&self.capabilities, cap).is_none() {
            let ghost before = self.capabilities@;
            let mut list = self.to_vec();
            list.push(cap);
            self.capabilities = list;
            proof {
                let after = self.capabilities@;
                assert forall|c: Capability| after.contains(c) <==> (before.contains(c) || c
                    == cap) by {
                    if before.contains(c) {
                        let j = choose|j: int| 0 <= j < before.len() && before[j] == c;
                        assert(after[j] == c);
                    }
                    if c == cap {
                        assert(after[before.len() as int] == c);
                    }
                }
                assert(after.to_set() =~= before.to_set().insert(cap));
            }
        } else {
            proof {
                assert(self.capabilities@.to_set() =~= self.capabilities@.to_set().insert(cap));
            }
        }
    }

    /// Takes a capability out of the set.
    pub fn remove(&mut self, cap: Capability)
        ensures
            final(self)@ == old(self)@.remove(cap),
    {
        proof {
            use_type_invariant(&*self);
        }
        let ghost before = self.capabilities@;
        match position_of(&self.capabilities, cap) {
            Some(i) => {
                let mut list = self.to_vec();
                list.remove(i);
                self.capabilities = list;
                proof {
                    let after = self.capabilities@;
                    assert(after =~= before.remove(i as int));
                    assert forall|c: Capability| after.contains(c) <==> (before.contains(c) && c
                        != cap) by {
                        if after.contains(c) {
                            let j = choose|j: int| 0 <= j < after.len() && after[j] == c;
                            if j < i {
                                assert(before[j] == c);
                            } else {
                                assert(before[j + 1] == c);
                            }
                        }
                        if before.contains(c) && c != cap {
                            let j = choose|j: int| 0 <= j < before.len() && before[j] == c;
                            if j < i {
                                assert(after[j] == c);
                            } else {
                                assert(after[j - 1] == c);
                            }
                        }
                    }
                    assert(after.to_set() =~= before.to_set().remove(cap));
                    assert(after.no_duplicates());
                }
            },
            None => {
                proof {
                    assert(before.to_set() =~= before.to_set().remove(cap));
                }
            },
        }
    }

    /// Whether the set holds nothing.
    pub fn is_empty(&self) -> (r: bool)
        ensures
            r == (self@ == Set::<Capability>::empty()),
    {
        let r = self.capabilities.len() == 0;
        proof {
            if r {
                assert(self@ =~= Set::<Capability>::empty());
            } else {
                assert(self@.contains(self.capabilities@[0]));
            }
        }
        r
    }

    /// The capabilities of the set, each once.
    pub fn inner(&self) -> (r: &Vec<Capability>)
        ensures
            r@.to_set() == self@,
            r@.no_duplicates(),
    {
        proof {
            use_type_invariant(self);
        }
        &self.capabilities
    }

    /// The capabilities of the set as a list, each once.
    pub fn to_vec(&self) -> (r: Vec<Capability>)
        ensures
            r@.to_set() == self@,
            r@.no_duplicates(),
            r@ == self.listed(),
    {
        proof {
            use_type_invariant(self);
        }
        let mut out: Vec<Capability> = Vec::new();
        let mut i: usize = 0;
        while i < self.capabilities.len()
            invariant
                i <= self.capabilities@.len(),
                out@ == self.capabilities@.take(i as int),
            decreases self.capabilities@.len() - i,
        {
            out.push(self.capabilities[i]);
            proof {
                assert(self.capabilities@.take(i + 1) =~= self.capabilities@.take(i as int).push(
                    self.capabilities@[i as int],
                ));
            }
            i = i + 1;
        }
        proof {
            assert(self.capabilities@.take(i as int) =~= self.capabilities@);
        }
        out
    }

    /// A copy of the set.
    pub fn duplicate(&self) -> (r: CapabilitySet)
        ensures
            r@ == self@,
    {
        let list = self.to_vec();
        CapabilitySet { capabilities: list }
    }
}

impl Clone for CapabilitySet {
    fn clone(&self) -> (r: Self)
        ensures
            r@ == self@,
    {
        self.duplicate()
    }
}

impl Default for CapabilitySet {
    fn default() -> (r: Self)
        ensures
            r@ == Set::<Capability>::empty(),
    {
        CapabilitySet::new()
    }
}

impl From<Vec<Capability>> for CapabilitySet {
    fn from(capabilities: Vec<Capability>) -> (r: Self)
        ensures
            r@ == capabilities@.to_set(),
    {
        CapabilitySet::from_set(capabilities)
    }
}

impl vstd::std_specs::convert::FromSpecImpl<Vec<Capability>> for CapabilitySet {
    open spec fn obeys_from_spec() -> bool {
        false
    }

    open spec fn from_spec(v: Vec<Capability>) -> Self {
        arbitrary()
    }
}

} // verus!
