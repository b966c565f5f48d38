//! AS names: a concrete AS number, a named as-set, or an invalid form.

use vstd::prelude::*;
use vstd::string::{is_ascii_spec_bytes, StringSliceAdditionalSpecFns};
use vstd::utf8::is_ascii_chars;

verus! {

/// The subject of an AS expression leaf.
#[derive(Debug, PartialEq, Eq)]
pub enum AsName {
    /// A concrete AS number.
    Num(u32),
    /// An as-set name, canonicalized to upper case.
    NamedSet(String),
    /// A field that parses as neither, with the reason.
    Invalid(String),
}

/// Mathematical form of an [`AsName`].
pub enum AsNameView {
    Num(u32),
    NamedSet(Seq<char>),
    Invalid(Seq<char>),
}

impl View for AsName {
    type V = AsNameView;

    open spec fn view(&self) -> AsNameView {
        match self {
            AsName::Num(n) => AsNameView::Num(*n),
            AsName::NamedSet(s) => AsNameView::NamedSet(s@),
            AsName::Invalid(s) => AsNameView::Invalid(s@),
        }
    }
}

/// Two AS names denote the same subject: same number, or same set or invalid
/// text.
pub open spec fn spec_as_name_eq(a: AsName, b: AsName) -> bool {
    match (a, b) {
        (AsName::Num(x), AsName::Num(y)) => x == y,
        (AsName::NamedSet(x), AsName::NamedSet(y)) => x@ == y@,
        (AsName::Invalid(x), AsName::Invalid(y)) => x@ == y@,
        _ => false,
    }
}

/// Compare two AS names by content.
pub fn as_name_eq(a: &AsName, b: &AsName) -> (r: bool)
    ensures
        r == spec_as_name_eq(*a, *b),
{
    match (a, b) {
        (AsName::Num(x), AsName::Num(y)) => *x == *y,
        (AsName::NamedSet(x), AsName::NamedSet(y)) => *x == *y,
        (AsName::Invalid(x), AsName::Invalid(y)) => *x == *y,
        _ => false,
    }
}

/// Copy an AS name; the copy holds the same value.
pub fn clone_as_name(n: &AsName) -> (r: AsName)
    ensures
        r == *n,
{
    match n {
        AsName::Num(x) => AsName::Num(*x),
        AsName::NamedSet(s) => AsName::NamedSet(s.clone()),
        AsName::Invalid(s) => AsName::Invalid(s.clone()),
    }
}


/// The upper-case form of one character, for ASCII letters.
pub open spec fn spec_upper_char(c: char) -> char {
    if 'a' <= c && c <= 'z' {
        (((c as u8) - 32) as u8) as char
    } else {
        c
    }
}

/// The canonical form of a set name: ASCII names are upper-cased, others
/// kept as they are.
pub open spec fn spec_upper(s: Seq<char>) -> Seq<char> {
    if is_ascii_chars(s) {
        s.map_values(|c: char| spec_upper_char(c))
    } else {
        s
    }
}

/// Relies on String::from_utf8: bytes below 128 decode to exactly those
/// characters.
#[verifier::external_body]
fn string_from_ascii(bytes: Vec<u8>) -> (r: String)
    requires
        forall|i: int| 0 <= i < bytes@.len() ==> bytes@[i] < 128,
    ensures
        r@ == bytes@.map_values(|b: u8| b as char),
{
    match String::from_utf8(bytes) {
        Ok(s) => s,
        Err(_) => String::new(),
    }
}

/// The canonical, upper-cased form of a set name.
pub fn to_uppercase_name(s: &str) -> (r: String)
    ensures
        r@ == spec_upper(s@),
{
    broadcast use is_ascii_spec_bytes;

    if !s.is_ascii() {
        return s.to_owned();
    }
    let bytes = s.as_bytes_vec();
    let ghost orig = bytes@;
    let mut out: Vec<u8> = Vec::new();
    let n = bytes.len();
    for i in 0..n
        invariant
            n == bytes@.len(),
            bytes@ == orig,
            orig == s.spec_bytes(),
            is_ascii_chars(s@),
            s.spec_bytes() =~= Seq::new(s@.len(), |k: int| s@[k] as u8),
            out@.len() == i,
            forall|k: int|
                0 <= k < i ==> (#[trigger] out@[k]) == (spec_upper_char(s@[k]) as u8),
            forall|k: int| 0 <= k < i ==> (#[trigger] out@[k]) < 128,
    {
        let b = bytes[i];
        proof {
            assert(b == s@[i as int] as u8);
            assert((s@[i as int] as u32) < 128);
        }
        if 97 <= b && b <= 122 {
            out.push(b - 32);
        } else {
            out.push(b);
        }
        proof {
            assert(out@[i as int] == (spec_upper_char(s@[i as int]) as u8));
        }
    }
    let r = string_from_ascii(out);
    proof {
        assert(r@ =~= spec_upper(s@)) by {
            assert forall|k: int| 0 <= k < s@.len() implies r@[k] == spec_upper(s@)[k] by {
                assert(r@[k] == ((spec_upper_char(s@[k]) as u8) as char));
                assert((s@[k] as u32) < 128);
            }
        }
    }
    r
}

/// Numeric value of a digit string.
pub open spec fn spec_digits_val(s: Seq<char>) -> int
    decreases s.len(),
{
    if s.len() == 0 {
        0
    } else {
        spec_digits_val(s.drop_last()) * 10 + (s.last() as int - '0' as int)
    }
}

pub open spec fn spec_all_digits(s: Seq<char>) -> bool {
    forall|i: int| 0 <= i < s.len() ==> '0' <= #[trigger] s[i] <= '9'
}

/// A digit string's value only grows with its length.
pub proof fn lemma_digits_val_grows(s: Seq<char>, i: int)
    requires
        0 <= i <= s.len(),
        spec_all_digits(s),
    ensures
        spec_digits_val(s.take(i)) <= spec_digits_val(s),
        spec_digits_val(s) >= 0,
    decreases s.len() - i,
{
    if i == s.len() {
        assert(s.take(i) =~= s);
        lemma_digits_val_nonneg(s);
    } else {
        lemma_digits_val_grows(s, i + 1);
        lemma_digits_val_nonneg(s.take(i));
        assert(s.take(i + 1).drop_last() =~= s.take(i));
        assert(s.take(i + 1).last() == s[i]);
    }
}

pub proof fn lemma_digits_val_nonneg(s: Seq<char>)
    requires
        spec_all_digits(s),
    ensures
        spec_digits_val(s) >= 0,
    decreases s.len(),
{
    if s.len() > 0 {
        assert(spec_all_digits(s.drop_last())) by {
            assert(forall|i: int| 0 <= i < s.len() - 1 ==> #[trigger] s.drop_last()[i] == s[i]);
        }
        lemma_digits_val_nonneg(s.drop_last());
        assert(s.last() == s[s.len() - 1]);
    }
}

/// The form `AS<digits>`, case-insensitive.
pub open spec fn spec_is_as_num_form(s: Seq<char>) -> bool {
    s.len() >= 3 && (s[0] == 'A' || s[0] == 'a') && (s[1] == 'S' || s[1] == 's')
        && spec_all_digits(s.skip(2))
}

/// What parsing a field as an AS name yields: `AS<digits>` becomes the
/// number where it fits 32 bits and an invalid name where it does not;
/// anything else is a set name in canonical upper case.
pub open spec fn spec_parse_as_name(s: Seq<char>) -> AsNameView {
    if spec_is_as_num_form(s) {
        if spec_digits_val(s.skip(2)) <= u32::MAX {
            AsNameView::Num(spec_digits_val(s.skip(2)) as u32)
        } else {
            AsNameView::Invalid(s)
        }
    } else {
        AsNameView::NamedSet(spec_upper(s))
    }
}

/// Parse a field as an AS name.
pub fn parse_as_name(field: String) -> (r: AsName)
    ensures
        r@ == spec_parse_as_name(field@),
{
    let s = field.as_str();
    let n = s.unicode_len();
    let form = if n < 3 {
        false
    } else {
        let c0 = s.get_char(0);
        let c1 = s.get_char(1);
        if (c0 == 'A' || c0 == 'a') && (c1 == 'S' || c1 == 's') {
            let mut all = true;
            let mut i: usize = 2;
            while i < n
                invariant
                    2 <= i <= n,
                    n == s@.len(),
                    all == spec_all_digits(s@.skip(2).take(i - 2)),
                decreases n - i,
            {
                let c = s.get_char(i);
                proof {
                    assert(s@.skip(2).take(i - 2 + 1).drop_last() =~= s@.skip(2).take(i - 2));
                    assert(s@.skip(2).take(i - 2 + 1).last() == s@[i as int]);
                    assert forall|k: int|
                        0 <= k < i - 2 + 1 implies #[trigger] s@.skip(2).take(i - 2 + 1)[k] == s@[
                        k + 2
                    ] by {}
                }
                if !('0' <= c && c <= '9') {
                    all = false;
                }
                proof {
                    if !('0' <= s@[i as int] && s@[i as int] <= '9') {
                        assert(!spec_all_digits(s@.skip(2).take(i - 2 + 1))) by {
                            assert(s@.skip(2).take(i - 2 + 1)[i - 2] == s@[i as int]);
                        }
                    } else {
                        if all {
                            assert(spec_all_digits(s@.skip(2).take(i - 2 + 1))) by {
                                assert(forall|k: int|
                                    0 <= k < i - 2 ==> #[trigger] s@.skip(2).take(i - 2 + 1)[k]
                                        == s@.skip(2).take(i - 2)[k]);
                            }
                        }
                    }
                }
                i = i + 1;
            }
            proof {
                assert(s@.skip(2).take(n - 2) =~= s@.skip(2));
            }
            all
        } else {
            false
        }
    };
    if form {
        let mut val: u64 = 0;
        let mut overflow = false;
        let mut i: usize = 2;
        while i < n
            invariant
                2 <= i <= n,
                n == s@.len(),
                spec_is_as_num_form(s@),
                val <= u32::MAX,
                !overflow ==> val == spec_digits_val(s@.skip(2).take(i - 2)),
                overflow ==> spec_digits_val(s@.skip(2).take(i - 2)) > u32::MAX,
            decreases n - i,
        {
            let c = s.get_char(i);
            proof {
                assert(spec_all_digits(s@.skip(2)));
                assert(s@.skip(2)[i - 2] == s@[i as int]);
                assert('0' <= s@[i as int] <= '9');
                assert(s@.skip(2).take(i - 2 + 1).drop_last() =~= s@.skip(2).take(i - 2));
                assert(s@.skip(2).take(i - 2 + 1).last() == s@[i as int]);
                lemma_digits_val_nonneg(s@.skip(2).take(i - 2));
            }
            let d = (c as u32) - 48;
            if !overflow {
                let next = val * 10 + (d as u64);
                if next > u32::MAX as u64 {
                    overflow = true;
                } else {
                    val = next;
                }
            }
            proof {
                if overflow {
                    assert(spec_digits_val(s@.skip(2).take(i - 2 + 1)) > u32::MAX);
                }
            }
            i = i + 1;
        }
        proof {
            assert(s@.skip(2).take(n - 2) =~= s@.skip(2));
        }
        if overflow {
            proof {
                lemma_digits_val_grows(s@.skip(2), n - 2);
            }
            AsName::Invalid(field)
        } else {
            AsName::Num(val as u32)
        }
    } else {
        AsName::NamedSet(to_uppercase_name(field.as_str()))
    }
}

} // verus!
