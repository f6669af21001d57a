use vstd::prelude::*;

verus! {

/// An opaque account identity (a platform principal), compared byte for byte.
#[derive(Clone, Debug)]
pub struct Account {
    bytes: Vec<u8>,
}

impl View for Account {
    type V = Seq<u8>;

    closed spec fn view(&self) -> Seq<u8> {
        self.bytes@
    }
}

impl PartialEq for Account {
    fn eq(&self, o: &Account) -> (r: bool) {
        bytes_eq(&self.bytes, &o.bytes)
    }
}

impl vstd::std_specs::cmp::PartialEqSpecImpl for Account {
    open spec fn obeys_eq_spec() -> bool {
        true
    }

    open spec fn eq_spec(&self, o: &Account) -> bool {
        self@ == o@
    }
}

impl Eq for Account {
}

/// Whether two byte vectors hold the same bytes.
pub fn bytes_eq(a: &Vec<u8>, b: &Vec<u8>) -> (r: bool)
    ensures
        r == (a@ == b@),
{
    if a.len() != b.len() {
        return false;
    }
    let mut i: usize = 0;
    while i < a.len()
        invariant
            a@.len() == b@.len(),
            i <= a@.len(),
            forall|j: int| 0 <= j < i ==> a@[j] == b@[j],
        decreases a@.len() - i,
    {
        if a[i] != b[i] {
            return false;
        }
        i = i + 1;
    }
    assert(a@ =~= b@);
    true
}

impl Account {
    /// An account with the given identity bytes.
    pub fn from_bytes(b: &[u8]) -> (r: Account)
        ensures
            r@ == b@,
    {
        let mut bytes: Vec<u8> = Vec::new();
        let mut i: usize = 0;
        while i < b.len()
            invariant
                i <= b@.len(),
                bytes@ == b@.subrange(0, i as int),
            decreases b@.len() - i,
        {
            bytes.push(b[i]);
            i = i + 1;
            assert(bytes@ =~= b@.subrange(0, i as int));
        }
        assert(bytes@ =~= b@);
        Account { bytes }
    }

    /// The anonymous identity: the single byte 4.
    pub fn anonymous() -> (r: Account)
        ensures
            r@ == seq![4u8],
    {
        let r = Account { bytes: vec![4u8] };
        assert(r@ =~= seq![4u8]);
        r
    }

    /// The identity bytes.
    pub fn as_bytes(&self) -> (r: &[u8])
        ensures
            r@ == self@,
    {
        self.bytes.as_slice()
    }

    /// A second account with the same identity.
    pub fn duplicate(&self) -> (r: Account)
        ensures
            r@ == self@,
    {
        let bytes = self.bytes.clone();
        assert(bytes@ =~= self.bytes@);
        Account { bytes }
    }
}

} // verus!
