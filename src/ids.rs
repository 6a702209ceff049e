use vstd::prelude::*;

verus! {

/// Identity that the host assigns to every message, inbound or outgoing.
#[derive(Clone, Copy, Debug, Eq)]
pub struct MessageId(pub [u8; 32]);

impl PartialEq for MessageId {
    fn eq(&self, other: &MessageId) -> (r: bool)
        ensures
            r == (self.0@ == other.0@),
    {
        let mut i: usize = 0;
        while i < 32
            invariant
                0 <= i <= 32,
                self.0@.len() == 32,
                other.0@.len() == 32,
                forall|j: int| 0 <= j < i ==> self.0@[j] == other.0@[j],
            decreases 32 - i,
        {
            if self.0[i] != other.0[i] {
                return false;
            }
            i = i + 1;
        }
        assert(self.0@ =~= other.0@);
        true
    }
}

impl vstd::std_specs::cmp::PartialEqSpecImpl for MessageId {
    open spec fn obeys_eq_spec() -> bool {
        true
    }

    open spec fn eq_spec(&self, other: &MessageId) -> bool {
        self.0@ == other.0@
    }
}

impl View for MessageId {
    type V = Seq<u8>;

    open spec fn view(&self) -> Seq<u8> {
        self.0@
    }
}

/// Identity of a program or user that sends or receives messages.
#[derive(Clone, Copy, Debug, PartialEq, Eq)]
pub struct ActorId(pub [u8; 32]);

} // verus!
