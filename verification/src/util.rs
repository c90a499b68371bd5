use std::borrow::Cow;
use std::sync::Arc;
use vstd::prelude::*;

verus! {

use vstd::string::StringSliceAdditionalSpecFns;
use vstd::utf8::encode_utf8;

/// A small value type unifying an owned/shared immutable string and a
/// statically known string, so tree entry names can come from either a
/// caller-owned heap string or a compile-time literal without forcing a
/// copy.
///
/// Two values compare equal exactly when they hold the same characters,
/// regardless of which variant holds them.
#[derive(Debug)]
pub enum ArcOrCowStr {
    Arc(Arc<str>),
    Cow(Cow<'static, str>),
}

impl View for ArcOrCowStr {
    type V = Seq<char>;

    open spec fn view(&self) -> Seq<char> {
        match self {
            ArcOrCowStr::Arc(v) => v@,
            ArcOrCowStr::Cow(v) => v@,
        }
    }
}

/// Relies on Arc::as_ref to borrow the shared string.
#[verifier::external_body]
fn arc_as_str(v: &Arc<str>) -> (r: &str)
    ensures
        r@ == v@,
{
    v.as_ref()
}

/// Relies on Cow::as_ref to borrow either form of the string.
#[verifier::external_body]
fn cow_as_str<'a>(v: &'a Cow<'static, str>) -> (r: &'a str)
    ensures
        r@ == v@,
{
    v.as_ref()
}

/// Appends a byte slice to a growable buffer.
pub(crate) fn append_bytes(out: &mut Vec<u8>, data: &[u8])
    ensures
        final(out)@ == old(out)@ + data@,
{
    out.extend_from_slice(data);
    proof {
        assert(final(out)@ =~= old(out)@ + data@);
    }
}

/// Compares two byte slices element by element.
fn bytes_eq(a: &[u8], b: &[u8]) -> (r: bool)
    ensures
        r == (a@ == b@),
{
    if a.len() != b.len() {
        return false;
    }
    let mut i: usize = 0;
    while i < a.len()
        invariant
            i <= a.len(),
            a.len() == b.len(),
            forall|j: int| 0 <= j < i ==> a@[j] == b@[j],
        decreases a.len() - i,
    {
        if a[i] != b[i] {
            return false;
        }
        i += 1;
    }
    proof {
        assert(a@ =~= b@);
    }
    true
}

impl ArcOrCowStr {
    /// The UTF-8 bytes of the string, as written into a tree encoding.
    pub open spec fn spec_bytes(&self) -> Seq<u8> {
        encode_utf8(self@)
    }

    /// Borrows the underlying string, whichever variant holds it.
    pub fn as_str(&self) -> (r: &str)
        ensures
            r@ == self@,
    {
        match self {
            ArcOrCowStr::Arc(v) => arc_as_str(v),
            ArcOrCowStr::Cow(v) => cow_as_str(v),
        }
    }

    /// The length in bytes of the UTF-8 encoding of the string.
    pub fn len(&self) -> (n: usize)
        ensures
            n == self.spec_bytes().len() as usize,
            self.spec_bytes().len() <= usize::MAX ==> n == self.spec_bytes().len(),
    {
        let s = self.as_str();
        proof {
            assert(s.spec_bytes() == encode_utf8(self@));
        }
        s.len()
    }
}

impl From<Arc<str>> for ArcOrCowStr {
    fn from(v: Arc<str>) -> Self {
        ArcOrCowStr::Arc(v)
    }
}

impl vstd::std_specs::convert::FromSpecImpl<Arc<str>> for ArcOrCowStr {
    open spec fn obeys_from_spec() -> bool {
        true
    }

    open spec fn from_spec(v: Arc<str>) -> Self {
        ArcOrCowStr::Arc(v)
    }
}

impl From<Cow<'static, str>> for ArcOrCowStr {
    fn from(v: Cow<'static, str>) -> Self {
        ArcOrCowStr::Cow(v)
    }
}

impl vstd::std_specs::convert::FromSpecImpl<Cow<'static, str>> for ArcOrCowStr {
    open spec fn obeys_from_spec() -> bool {
        true
    }

    open spec fn from_spec(v: Cow<'static, str>) -> Self {
        ArcOrCowStr::Cow(v)
    }
}

impl From<&'static str> for ArcOrCowStr {
    fn from(v: &'static str) -> Self {
        ArcOrCowStr::Cow(Cow::Borrowed(v))
    }
}

impl vstd::std_specs::convert::FromSpecImpl<&'static str> for ArcOrCowStr {
    open spec fn obeys_from_spec() -> bool {
        true
    }

    open spec fn from_spec(v: &'static str) -> Self {
        ArcOrCowStr::Cow(Cow::Borrowed(v))
    }
}

impl From<String> for ArcOrCowStr {
    fn from(v: String) -> Self {
        ArcOrCowStr::Cow(Cow::Owned(v))
    }
}

impl vstd::std_specs::convert::FromSpecImpl<String> for ArcOrCowStr {
    open spec fn obeys_from_spec() -> bool {
        true
    }

    open spec fn from_spec(v: String) -> Self {
        ArcOrCowStr::Cow(Cow::Owned(v))
    }
}

impl PartialEq for ArcOrCowStr {
    fn eq(&self, other: &Self) -> (r: bool) {
        let sa = self.as_str();
        let sb = other.as_str();
        let r = bytes_eq(sa.as_bytes(), sb.as_bytes());
        proof {
            assert(sa.spec_bytes() == encode_utf8(self@));
            assert(sb.spec_bytes() == encode_utf8(other@));
            vstd::utf8::encode_utf8_decode_utf8(self@);
            vstd::utf8::encode_utf8_decode_utf8(other@);
        }
        r
    }
}

impl vstd::std_specs::cmp::PartialEqSpecImpl for ArcOrCowStr {
    open spec fn obeys_eq_spec() -> bool {
        true
    }

    open spec fn eq_spec(&self, other: &Self) -> bool {
        self@ == other@
    }
}

impl Eq for ArcOrCowStr {

}

} // verus!
