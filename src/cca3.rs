use vstd::prelude::*;

verus! {

/// An upper-case ASCII letter.
pub open spec fn is_code_letter(c: char) -> bool {
    'A' <= c && c <= 'Z'
}

/// A text that is a valid three-letter country code.
pub open spec fn is_code_text(s: Seq<char>) -> bool {
    s.len() == 3 && forall|i: int| 0 <= i < 3 ==> is_code_letter(#[trigger] s[i])
}

/// A country code of exactly three upper-case ASCII letters (ISO 3166-1 alpha-3).
#[derive(Debug, Clone, Copy, PartialEq, Eq, Hash)]
pub struct CCA3([u8; 3]);

/// The error for a text that is not a valid country code.
#[derive(Debug, Clone, Copy, PartialEq, Eq)]
pub struct InvalidCCA3;

/// Relies on `std::str::from_utf8`: bytes below 128 are valid UTF-8, and each
/// of them is read as the one character with that code.
#[verifier::external_body]
fn ascii_str(b: &[u8; 3]) -> (r: &str)
    requires
        forall|i: int| 0 <= i < 3 ==> b@[i] < 128,
    ensures
        r@ == b@.map_values(|x: u8| x as char),
{
    std::str::from_utf8(b).unwrap()
}

impl CCA3 {
    /// The code's letters.
    pub closed spec fn view(&self) -> Seq<char> {
        self.0@.map_values(|x: u8| x as char)
    }

    #[verifier::type_invariant]
    spec fn letters_only(&self) -> bool {
        forall|i: int| 0 <= i < 3 ==> 65 <= #[trigger] self.0@[i] <= 90
    }

    /// Two codes with the same letters are the same code. With the contracts
    /// of `from_str` and `as_str`, parsing the text of a code gives that code
    /// back.
    pub proof fn lemma_view_injective(a: CCA3, b: CCA3)
        requires
            a.view() == b.view(),
        ensures
            a == b,
    {
        assert forall|i: int| 0 <= i < 3 implies a.0@[i] == b.0@[i] by {
            assert(a.view()[i] == a.0@[i] as char);
            assert(b.view()[i] == b.0@[i] as char);
            assert((a.0@[i] as char) as u32 == a.0@[i] as u32);
            assert((b.0@[i] as char) as u32 == b.0@[i] as u32);
        }
        assert(a.0 =~= b.0);
    }

    /// Builds a code from a text of exactly three upper-case ASCII letters.
    pub fn from_str(s: &str) -> (r: Result<CCA3, InvalidCCA3>)
        ensures
            r is Ok <==> is_code_text(s@),
            r matches Ok(c) ==> c.view() == s@,
    {
        if s.unicode_len() != 3 {
            return Err(InvalidCCA3);
        }
        let mut buf: [u8; 3] = [0u8; 3];
        let mut i: usize = 0;
        while i < 3
            invariant
                s@.len() == 3,
                i <= 3,
                forall|j: int| 0 <= j < i ==> is_code_letter(#[trigger] s@[j]),
                forall|j: int| 0 <= j < i ==> 65 <= #[trigger] buf@[j] <= 90,
                forall|j: int| 0 <= j < i ==> (#[trigger] buf@[j]) as char == s@[j],
            decreases 3 - i,
        {
            let c = s.get_char(i);
            if !('A' <= c && c <= 'Z') {
                return Err(InvalidCCA3);
            }
            buf[i] = c as u8;
            i = i + 1;
        }
        let code = CCA3(buf);
        assert(code.view() =~= s@);
        Ok(code)
    }

    /// The code as text.
    pub fn as_str(&self) -> (r: &str)
        ensures
            r@ == self.view(),
            is_code_text(r@),
    {
        proof {
            use_type_invariant(self);
        }
        ascii_str(&self.0)
    }

    /// The code as an owned text.
    pub fn to_string(&self) -> (r: String)
        ensures
            r@ == self.view(),
            is_code_text(r@),
    {
        self.as_str().to_owned()
    }
}

impl std::str::FromStr for CCA3 {
    type Err = InvalidCCA3;

    fn from_str(s: &str) -> Result<CCA3, InvalidCCA3> {
        CCA3::from_str(s)
    }
}

impl InvalidCCA3 {
    pub open spec fn message_spec() -> Seq<char> {
        "Invalid country code: must be exactly 3 uppercase ASCII letters (ISO 3166-1 alpha-3)"@
    }

    /// The error's description.
    pub fn message(&self) -> (r: &'static str)
        ensures
            r@ == Self::message_spec(),
    {
        "Invalid country code: must be exactly 3 uppercase ASCII letters (ISO 3166-1 alpha-3)"
    }
}

} // verus!
