//! Key bundles: the ordered set of raw session keys a validator registers,
//! one raw key per declared key-type id, in the declared order.
use vstd::prelude::*;

verus! {

/// The session keys of one validator: one raw key per declared key-type id,
/// in the same order as the chain's declared list of key-type ids.
pub struct KeyBundle {
    /// Raw key bytes, positionally aligned with the declared key-type ids.
    pub keys: Vec<Vec<u8>>,
}

impl View for KeyBundle {
    type V = Seq<Seq<u8>>;

    open spec fn view(&self) -> Seq<Seq<u8>> {
        self.keys@.map_values(|k: Vec<u8>| k@)
    }
}

/// The bundle a validator is given when none is registered: one empty raw key
/// per declared key-type id.
pub open spec fn spec_default_bundle(n: nat) -> Seq<Seq<u8>> {
    Seq::new(n, |i: int| Seq::<u8>::empty())
}

impl KeyBundle {
    /// A bundle holding the given raw keys.
    pub fn new(keys: Vec<Vec<u8>>) -> (r: KeyBundle)
        ensures
            r.keys@ == keys@,
    {
        KeyBundle { keys }
    }

    /// The number of raw keys in the bundle.
    pub fn key_count(&self) -> (r: usize)
        ensures
            r == self@.len(),
    {
        self.keys.len()
    }

    /// The bundle used when a validator has no registered keys: one empty raw
    /// key per declared key-type id.
    pub fn default_bundle(n: usize) -> (r: KeyBundle)
        ensures
            r@ == spec_default_bundle(n as nat),
    {
        let mut keys: Vec<Vec<u8>> = Vec::new();
        let mut i: usize = 0;
        while i < n
            invariant
                i <= n,
                keys@.len() == i,
                forall|j: int| 0 <= j < i ==> keys@[j]@ == Seq::<u8>::empty(),
            decreases n - i,
        {
            keys.push(Vec::new());
            i = i + 1;
        }
        proof {
            assert(KeyBundle { keys }@ =~= spec_default_bundle(n as nat));
        }
        KeyBundle { keys }
    }

    /// An owned copy of the bundle with the same raw keys.
    pub fn duplicate(&self) -> (r: KeyBundle)
        ensures
            r@ == self@,
    {
        let mut keys: Vec<Vec<u8>> = Vec::new();
        let mut i: usize = 0;
        while i < self.keys.len()
            invariant
                i <= self.keys@.len(),
                keys@.len() == i,
                forall|j: int| 0 <= j < i ==> keys@[j]@ == self.keys@[j]@,
            decreases self.keys@.len() - i,
        {
            keys.push(clone_bytes(&self.keys[i]));
            i = i + 1;
        }
        proof {
            assert(KeyBundle { keys }@ =~= self@);
        }
        KeyBundle { keys }
    }

    /// Whether two bundles hold exactly the same raw keys.
    pub fn same_keys(&self, other: &KeyBundle) -> (r: bool)
        ensures
            r == (self@ == other@),
    {
        if self.keys.len() != other.keys.len() {
            proof {
                assert(self@.len() != other@.len());
            }
            return false;
        }
        let mut i: usize = 0;
        while i < self.keys.len()
            invariant
                i <= self.keys@.len(),
                self.keys@.len() == other.keys@.len(),
                forall|j: int| 0 <= j < i ==> self.keys@[j]@ == other.keys@[j]@,
            decreases self.keys@.len() - i,
        {
            if !bytes_eq(&self.keys[i], &other.keys[i]) {
                proof {
                    assert(self@[i as int] != other@[i as int]);
                }
                return false;
            }
            i = i + 1;
        }
        proof {
            assert(self@ =~= other@);
        }
        true
    }
}

/// An owned copy of a raw key.
pub fn clone_bytes(v: &Vec<u8>) -> (r: Vec<u8>)
    ensures
        r@ == v@,
{
    let mut out: Vec<u8> = Vec::new();
    let mut i: usize = 0;
    while i < v.len()
        invariant
            i <= v@.len(),
            out@ == v@.subrange(0, i as int),
        decreases v@.len() - i,
    {
        out.push(v[i]);
        proof {
            assert(out@ =~= v@.subrange(0, i + 1 as int));
        }
        i = i + 1;
    }
    proof {
        assert(out@ =~= v@);
    }
    out
}

/// Whether two raw keys hold the same bytes.
pub fn bytes_eq(a: &Vec<u8>, b: &Vec<u8>) -> (r: bool)
    ensures
        r == (a@ == b@),
{
    if a.len() != b.len() {
        return false;
    }
    let mut i: usize = 0;
    while i < a.len()
        invariant
            i <= a@.len(),
            a@.len() == b@.len(),
            forall|j: int| 0 <= j < i ==> a@[j] == b@[j],
        decreases a@.len() - i,
    {
        if a[i] != b[i] {
            return false;
        }
        i = i + 1;
    }
    proof {
        assert(a@ =~= b@);
    }
    true
}

} // verus!
