use vstd::prelude::*;
use vstd::string::StringSliceAdditionalSpecFns;

verus! {

/// The ASCII lower-case form of one byte; other bytes are unchanged.
pub open spec fn ascii_lower(b: u8) -> u8 {
    if 65 <= b && b <= 90 { (b + 32) as u8 } else { b }
}

/// The ASCII upper-case form of one byte; other bytes are unchanged.
pub open spec fn ascii_upper(b: u8) -> u8 {
    if 97 <= b && b <= 122 { (b - 32) as u8 } else { b }
}

pub open spec fn lower_seq(s: Seq<u8>) -> Seq<u8> {
    s.map_values(|b: u8| ascii_lower(b))
}

pub open spec fn upper_seq(s: Seq<u8>) -> Seq<u8> {
    s.map_values(|b: u8| ascii_upper(b))
}

pub fn byte_to_ascii_lower(b: u8) -> (r: u8)
    ensures
        r == ascii_lower(b),
{
    if 65 <= b && b <= 90 { b + 32 } else { b }
}

pub fn byte_to_ascii_upper(b: u8) -> (r: u8)
    ensures
        r == ascii_upper(b),
{
    if 97 <= b && b <= 122 { b - 32 } else { b }
}

/// An awk string: an owned sequence of bytes (not necessarily UTF-8).
#[derive(Clone, Debug, PartialEq, Eq, Hash, PartialOrd)]
pub struct AwkStr {
    bytes: Vec<u8>,
}

impl View for AwkStr {
    type V = Seq<u8>;

    closed spec fn view(&self) -> Seq<u8> {
        self.bytes@
    }
}

impl AwkStr {
    pub fn new(bytes: Vec<u8>) -> (s: AwkStr)
        ensures
            s@ == bytes@,
    {
        AwkStr { bytes }
    }

    /// The bytes of an awk string built from Rust text: its UTF-8 encoding.
    pub fn from_str(s: &str) -> (r: AwkStr)
        ensures
            r@ == s.spec_bytes(),
    {
        AwkStr { bytes: vstd::slice::slice_to_vec(s.as_bytes()) }
    }

    pub fn bytes(&self) -> (b: &[u8])
        ensures
            b@ == self@,
    {
        self.bytes.as_slice()
    }

    pub fn len(&self) -> (n: usize)
        ensures
            n == self@.len(),
    {
        self.bytes.len()
    }

    pub fn make_ascii_lowercase(&mut self)
        ensures
            final(self)@ == lower_seq(old(self)@),
    {
        let n = self.bytes.len();
        let mut i: usize = 0;
        while i < n
            invariant
                n == old(self)@.len(),
                self@.len() == n,
                0 <= i <= n,
                forall|j: int| 0 <= j < i ==> self@[j] == ascii_lower(old(self)@[j]),
                forall|j: int| i <= j < n ==> self@[j] == old(self)@[j],
            decreases n - i,
        {
            let b = byte_to_ascii_lower(self.bytes[i]);
            self.bytes.set(i, b);
            i = i + 1;
        }
        assert(self@ =~= lower_seq(old(self)@));
    }

    pub fn make_ascii_uppercase(&mut self)
        ensures
            final(self)@ == upper_seq(old(self)@),
    {
        let n = self.bytes.len();
        let mut i: usize = 0;
        while i < n
            invariant
                n == old(self)@.len(),
                self@.len() == n,
                0 <= i <= n,
                forall|j: int| 0 <= j < i ==> self@[j] == ascii_upper(old(self)@[j]),
                forall|j: int| i <= j < n ==> self@[j] == old(self)@[j],
            decreases n - i,
        {
            let b = byte_to_ascii_upper(self.bytes[i]);
            self.bytes.set(i, b);
            i = i + 1;
        }
        assert(self@ =~= upper_seq(old(self)@));
    }

    pub fn to_ascii_lowercase(&self) -> (r: AwkStr)
        ensures
            r@ == lower_seq(self@),
    {
        let mut r = AwkStr { bytes: vstd::slice::slice_to_vec(self.bytes.as_slice()) };
        r.make_ascii_lowercase();
        r
    }

    pub fn to_ascii_uppercase(&self) -> (r: AwkStr)
        ensures
            r@ == upper_seq(self@),
    {
        let mut r = AwkStr { bytes: vstd::slice::slice_to_vec(self.bytes.as_slice()) };
        r.make_ascii_uppercase();
        r
    }

    pub fn push_str(&mut self, other: &[u8])
        ensures
            final(self)@ == old(self)@ + other@,
    {
        self.bytes.extend_from_slice(other);
        assert(self@ =~= old(self)@ + other@);
    }

    pub fn clear(&mut self)
        ensures
            final(self)@ == Seq::<u8>::empty(),
    {
        self.bytes.clear();
    }

    pub fn as_mut_vec(&mut self) -> (v: &mut Vec<u8>)
        ensures
            (*v)@ == old(self)@,
            final(self)@ == (*final(v))@,
    {
        &mut self.bytes
    }
}

/// Upper-casing turns every ASCII lower-case letter into its upper-case
/// form (32 below it) and leaves every other byte as it is, so no lower-case
/// letter remains.
pub proof fn law_upper_case(s: Seq<u8>)
    ensures
        upper_seq(s).len() == s.len(),
        forall|i: int| 0 <= i < s.len() && 97 <= s[i] <= 122 ==> #[trigger] upper_seq(s)[i] + 32 == s[i],
        forall|i: int| 0 <= i < s.len() && !(97 <= s[i] <= 122) ==> #[trigger] upper_seq(s)[i] == s[i],
        forall|i: int| 0 <= i < s.len() ==> !(97 <= #[trigger] upper_seq(s)[i] <= 122),
{
}

/// Lower-casing turns every ASCII upper-case letter into its lower-case
/// form (32 above it) and leaves every other byte as it is, so no upper-case
/// letter remains.
pub proof fn law_lower_case(s: Seq<u8>)
    ensures
        lower_seq(s).len() == s.len(),
        forall|i: int| 0 <= i < s.len() && 65 <= s[i] <= 90 ==> #[trigger] lower_seq(s)[i] == s[i] + 32,
        forall|i: int| 0 <= i < s.len() && !(65 <= s[i] <= 90) ==> #[trigger] lower_seq(s)[i] == s[i],
        forall|i: int| 0 <= i < s.len() ==> !(65 <= #[trigger] lower_seq(s)[i] <= 90),
{
}

} // verus!
