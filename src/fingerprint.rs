use std::collections::hash_map::DefaultHasher;
use std::hash::Hasher;
use vstd::prelude::*;
use vstd::std_specs::hash::DefaultHasherAdditionalSpecFns;

verus! {

/// The writes a hasher receives when each byte of `content` is fed on its own,
/// in order.
pub open spec fn byte_writes(content: Seq<u8>) -> Seq<Seq<u8>> {
    Seq::new(content.len(), |i: int| seq![content[i]])
}

/// The fingerprint of a file whose full content is `content`. It depends on
/// the bytes alone, so identical contents share a fingerprint; distinct
/// contents may collide, and are then treated as duplicates.
pub open spec fn digest(content: Seq<u8>) -> u64 {
    DefaultHasher::spec_finish(byte_writes(content))
}

/// An incremental fingerprint over a byte stream fed in chunks of any size.
pub struct Fingerprinter {
    hasher: DefaultHasher,
}

impl View for Fingerprinter {
    type V = Seq<u8>;

    /// The bytes consumed so far.
    closed spec fn view(&self) -> Seq<u8> {
        Seq::new(self.hasher@.len(), |i: int| self.hasher@[i][0])
    }
}

impl Fingerprinter {
    /// The hasher has received one single-byte write per consumed byte.
    pub closed spec fn wf(&self) -> bool {
        forall|i: int| 0 <= i < self.hasher@.len() ==> (#[trigger] self.hasher@[i]).len() == 1
    }

    /// A fingerprinter that has consumed nothing.
    pub fn new() -> (r: Fingerprinter)
        ensures
            r.wf(),
            r@ == Seq::<u8>::empty(),
    {
        let r = Fingerprinter { hasher: DefaultHasher::new() };
        assert(r@ =~= Seq::<u8>::empty());
        r
    }

    /// Consumes `chunk`, which follows the bytes consumed so far.
    pub fn update(&mut self, chunk: &[u8])
        requires
            old(self).wf(),
        ensures
            final(self).wf(),
            final(self)@ == old(self)@ + chunk@,
    {
        let n = chunk.len();
        let mut i: usize = 0;
        while i < n
            invariant
                n == chunk@.len(),
                i <= n,
                self.wf(),
                self@ == old(self)@ + chunk@.take(i as int),
            decreases n - i,
        {
            let one: [u8; 1] = [chunk[i]];
            let ghost before = *self;
            self.hasher.write(&one);
            assert(one@ =~= seq![chunk@[i as int]]);
            assert(self.hasher@ == before.hasher@.push(one@));
            assert(self@ =~= before@.push(chunk@[i as int]));
            assert(chunk@.take(i + 1) =~= chunk@.take(i as int).push(chunk@[i as int]));
            assert(self@ =~= old(self)@ + chunk@.take(i + 1));
            i = i + 1;
        }
        assert(chunk@.take(n as int) =~= chunk@);
    }

    /// The fingerprint of the bytes consumed so far.
    pub fn finish(&self) -> (r: u64)
        requires
            self.wf(),
        ensures
            r == digest(self@),
    {
        assert forall|i: int| 0 <= i < self.hasher@.len() implies self.hasher@[i] =~= seq![
            self.hasher@[i][0],
        ] by {
            assert(self.hasher@[i].len() == 1);
        }
        assert(self.hasher@ =~= byte_writes(self@));
        self.hasher.finish()
    }
}

/// The fingerprint of `content`, taken whole.
pub fn fingerprint(content: &[u8]) -> (r: u64)
    ensures
        r == digest(content@),
{
    let mut f = Fingerprinter::new();
    f.update(content);
    assert(f@ =~= content@);
    f.finish()
}

} // verus!
