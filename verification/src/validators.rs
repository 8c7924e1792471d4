use vstd::prelude::*;
use vstd::string::StringExecFns;
use vstd::string::StringSliceAdditionalSpecFns;

verus! {

/// Why a topic name was rejected.
#[derive(Debug, Clone)]
pub enum InvalidTopicName {
    InvalidNameFormat(String),
    NameIsReserved,
}

/// The byte values the naming rules speak of, as ASCII codes.
pub const DASH_BYTE: u8 = 45;

pub const DIGIT_ZERO_BYTE: u8 = 48;

pub const DIGIT_NINE_BYTE: u8 = 57;

pub const LOWER_A_BYTE: u8 = 97;

pub const LOWER_Z_BYTE: u8 = 122;

/// A byte a topic name may hold: a dash, a decimal digit, or a lower-case
/// latin letter.
pub open spec fn allowed_symbol(b: u8) -> bool {
    b == DASH_BYTE || (DIGIT_ZERO_BYTE <= b <= DIGIT_NINE_BYTE) || (LOWER_A_BYTE <= b <= LOWER_Z_BYTE)
}

/// The one reserved name, `topics`, written out byte for byte.
pub open spec fn is_reserved_topic_name(s: Seq<u8>) -> bool {
    s =~= seq![116u8, 111u8, 112u8, 105u8, 99u8, 115u8]
}

/// A well-formed topic name: 3 to 63 bytes, only dashes, digits and
/// lower-case letters, no dash at either end and no two dashes in a row.
pub open spec fn topic_name_format_ok(s: Seq<u8>) -> bool {
    &&& 3 <= s.len() <= 63
    &&& s[0] != DASH_BYTE
    &&& s[s.len() - 1] != DASH_BYTE
    &&& forall|i: int| 0 <= i < s.len() ==> allowed_symbol(#[trigger] s[i])
    &&& forall|i: int| 0 < i < s.len() ==> !(#[trigger] s[i] == DASH_BYTE && s[i - 1] == DASH_BYTE)
}

/// Check a topic name against the naming rules: the name `topics` is
/// reserved; any other name passes exactly when it is 3 to 63 bytes of
/// dashes, digits and lower-case letters, does not start or end with a
/// dash, and never holds two dashes in a row.
pub fn validate_topic_name(name: &str) -> (r: Result<(), InvalidTopicName>)
    ensures
        is_reserved_topic_name(name.spec_bytes()) ==> r == Result::<(), InvalidTopicName>::Err(
            InvalidTopicName::NameIsReserved,
        ),
        !is_reserved_topic_name(name.spec_bytes()) ==> (r is Ok <==> topic_name_format_ok(
            name.spec_bytes(),
        )),
        r is Err ==> (r matches Err(InvalidTopicName::NameIsReserved)
            <==> is_reserved_topic_name(name.spec_bytes())),
{
    let as_bytes = name.as_bytes();
    let n = as_bytes.len();
    if n == 6 && as_bytes[0] == 116 && as_bytes[1] == 111 && as_bytes[2] == 112 && as_bytes[3]
        == 105 && as_bytes[4] == 99 && as_bytes[5] == 115 {
        proof {
            assert(name.spec_bytes() =~= seq![116u8, 111u8, 112u8, 105u8, 99u8, 115u8]);
        }
        return Err(InvalidTopicName::NameIsReserved);
    }
    if n < 3 {
        return Err(
            InvalidTopicName::InvalidNameFormat(
                String::from_str("Table name must contain at least 3 symbols"),
            ),
        );
    }
    if n > 63 {
        return Err(
            InvalidTopicName::InvalidNameFormat(
                String::from_str("Table name must contain 3-63 symbols"),
            ),
        );
    }
    if as_bytes[0] == DASH_BYTE {
        return Err(
            InvalidTopicName::InvalidNameFormat(
                String::from_str("Table can not be started from the dash symbol"),
            ),
        );
    }
    if as_bytes[n - 1] == DASH_BYTE {
        return Err(
            InvalidTopicName::InvalidNameFormat(
                String::from_str("Table can not be ended with the dash symbol"),
            ),
        );
    }
    let mut i: usize = 0;
    while i < n
        invariant
            n == name.spec_bytes().len(),
            as_bytes@ == name.spec_bytes(),
            0 <= i <= n,
            forall|j: int| 0 <= j < i ==> allowed_symbol(#[trigger] as_bytes@[j]),
            forall|j: int| 0 < j < i ==> !(#[trigger] as_bytes@[j] == DASH_BYTE && as_bytes@[j - 1]
                == DASH_BYTE),
        decreases n - i,
    {
        let c = as_bytes[i];
        if !symbol_is_allowed(c) {
            return Err(
                InvalidTopicName::InvalidNameFormat(
                    String::from_str("The name holds a symbol that is not allowed"),
                ),
            );
        }
        if c == DASH_BYTE && i > 0 && as_bytes[i - 1] == DASH_BYTE {
            return Err(
                InvalidTopicName::InvalidNameFormat(
                    String::from_str("Two following dash symbols are not allowed"),
                ),
            );
        }
        i += 1;
    }
    Ok(())
}

/// A byte a topic name may hold.
fn symbol_is_allowed(c: u8) -> (r: bool)
    ensures
        r == allowed_symbol(c),
{
    c == DASH_BYTE || is_digit(c) || is_lower_case_latin_letter(c)
}

fn is_digit(c: u8) -> (r: bool)
    ensures
        r == (DIGIT_ZERO_BYTE <= c <= DIGIT_NINE_BYTE),
{
    c >= DIGIT_ZERO_BYTE && c <= DIGIT_NINE_BYTE
}

fn is_lower_case_latin_letter(c: u8) -> (r: bool)
    ensures
        r == (LOWER_A_BYTE <= c <= LOWER_Z_BYTE),
{
    c >= LOWER_A_BYTE && c <= LOWER_Z_BYTE
}

} // verus!
