//! An owned, nul-terminated buffer of 16-bit code units.
use vstd::prelude::*;

verus! {

/// True when no unit of `s` is the terminator.
pub open spec fn nul_free(s: Seq<u16>) -> bool {
    forall|i: int| 0 <= i < s.len() ==> s[i] != 0u16
}

/// A nul-terminated string of 16-bit code units that owns its buffer.
/// Its view is the text before the terminator.
#[derive(Debug)]
pub struct BoxedCStr16 {
    vec: Vec<u16>,
}

impl View for BoxedCStr16 {
    type V = Seq<u16>;

    closed spec fn view(&self) -> Seq<u16> {
        self.vec@.drop_last()
    }
}

impl BoxedCStr16 {
    /// The terminator ends the buffer and appears nowhere else.
    #[verifier::type_invariant]
    spec fn inv(&self) -> bool {
        &&& self.vec@.len() >= 1
        &&& self.vec@.last() == 0u16
        &&& nul_free(self.vec@.drop_last())
    }

    /// Takes a **nul-terminated** vector: the string is the units before
    /// its first zero unit, and whatever follows that zero is dropped.
    pub fn new(v: Vec<u16>) -> (r: BoxedCStr16)
        requires
            exists|i: int| 0 <= i < v@.len() && v@[i] == 0u16,
        ensures
            r@.len() < v@.len(),
            v@[r@.len() as int] == 0u16,
            r@ == v@.take(r@.len() as int),
            nul_free(r@),
    {
        let mut buf: Vec<u16> = Vec::new();
        let n = v.len();
        let mut i: usize = 0;
        while v[i] != 0u16
            invariant
                n == v@.len(),
                i < v@.len(),
                buf@ == v@.take(i as int),
                nul_free(buf@),
                exists|k: int| i <= k < v@.len() && v@[k] == 0u16,
            decreases v@.len() - i,
        {
            buf.push(v[i]);
            assert(exists|k: int| i < k < n && v@[k] == 0u16);
            i += 1;
            assert(buf@ =~= v@.take(i as int));
        }
        let ghost text = buf@;
        buf.push(0u16);
        assert(buf@.drop_last() =~= text);
        BoxedCStr16 { vec: buf }
    }

    /// The buffer, terminator included.
    pub fn as_units(&self) -> (r: &[u16])
        ensures
            r@ == self@.push(0u16),
            nul_free(self@),
    {
        proof {
            use_type_invariant(self);
            assert(self.vec@ =~= self.vec@.drop_last().push(0u16));
        }
        self.vec.as_slice()
    }

    /// The text, terminator excluded.
    pub fn text(&self) -> (r: &[u16])
        ensures
            r@ == self@,
    {
        proof {
            use_type_invariant(self);
        }
        vstd::slice::slice_subrange(self.vec.as_slice(), 0, self.vec.len() - 1)
    }

    /// The number of code units before the terminator.
    pub fn len(&self) -> (r: usize)
        ensures
            r == self@.len(),
    {
        proof {
            use_type_invariant(self);
        }
        self.vec.len() - 1
    }
}

} // verus!
