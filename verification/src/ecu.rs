//! ECU labels, and what follows from them: the flash device number that the
//! programmer is told, and the name of the kernel file that it runs.
use vstd::prelude::*;
use vstd::utf8::is_ascii_chars;

use crate::text::{ascii_upper, ascii_uppered, contains, occurs, occurs_at, trim, trimmed};
use crate::unicode::{to_uppercase, uppercase};

verus! {

/// The characters of `text`, or of `default` where there is no text.
pub open spec fn text_or(text: Option<String>, default: Seq<char>) -> Seq<char> {
    match text {
        Some(t) => t@,
        None => default,
    }
}

/// `text`, or `default` where there is no text.
pub fn or_default(text: Option<String>, default: &str) -> (r: String)
    ensures
        r@ == text_or(text, default@),
{
    match text {
        Some(t) => t,
        None => default.to_owned(),
    }
}

/// The label of the ECU to work on, which is `SH7055_18` unless another is
/// given.
pub fn ecu_label(ecu: Option<String>) -> (r: String)
    ensures
        r@ == text_or(ecu, "SH7055_18"@),
{
    or_default(ecu, "SH7055_18")
}

/// The kernel file of the ECU family `family`, without extension.
pub open spec fn kernel_base(family: Seq<char>) -> Seq<char> {
    "npk_"@ + family
}

/// The kernel file of the ECU family `family`, without extension.
pub fn kernel_name(family: &str) -> (r: String)
    ensures
        r@ == kernel_base(family@),
{
    let mut out: String = "npk_".to_owned();
    out.append(family);
    out
}

/// The kernel file that matches an ECU label, without extension. White space
/// around the label and the letter case of the label do not matter.
pub fn kernel_for_ecu(ecu: &str) -> (r: String)
    ensures
        r@ == kernel_base(uppercase(trimmed(ecu@))),
        is_ascii_chars(trimmed(ecu@)) ==> r@ == kernel_base(ascii_uppered(trimmed(ecu@))),
{
    let family: String = to_uppercase(trim(ecu).as_str());
    kernel_name(family.as_str())
}

/// The device number of the programmer's `setdev` command: 0 is the 7051, 1 the
/// 7055 and 2 the 7058. A label that names none of them stands for a 7055.
pub open spec fn device_number(label: Seq<char>) -> Seq<char> {
    if occurs(label, "7058"@) {
        "2"@
    } else if occurs(label, "7051"@) {
        "0"@
    } else {
        "1"@
    }
}

/// The device number for a label in upper case.
pub fn setdev_num(label: &str) -> (r: &'static str)
    ensures
        r@ == device_number(label@),
{
    if contains(label, "7058") {
        "2"
    } else if contains(label, "7051") {
        "0"
    } else {
        "1"
    }
}

/// The device number for an ECU label. A label in ASCII can be looked at as it
/// is: only its digits matter.
pub fn setdev_num_for_ecu(ecu: &str) -> (r: &'static str)
    ensures
        r@ == device_number(uppercase(ecu@)),
        is_ascii_chars(ecu@) ==> r@ == device_number(ecu@),
{
    proof {
        letter_case_keeps_device(ecu@);
    }
    setdev_num(to_uppercase(ecu).as_str())
}

/// Digits occur in a text in upper case where they occur in the text.
proof fn digits_keep_their_place(s: Seq<char>, digits: Seq<char>)
    requires
        forall|k: int| 0 <= k < digits.len() ==> '0' <= #[trigger] digits[k] <= '9',
    ensures
        occurs(ascii_uppered(s), digits) == occurs(s, digits),
{
    let u = ascii_uppered(s);
    assert forall|i: int| #[trigger] occurs_at(u, digits, i) == occurs_at(s, digits, i) by {
        let n = digits.len() as int;
        if 0 <= i && i + n <= s.len() {
            let a = u.subrange(i, i + n);
            let b = s.subrange(i, i + n);
            if a == digits {
                assert forall|k: int| 0 <= k < n implies #[trigger] b[k] == digits[k] by {
                    assert(a[k] == ascii_upper(b[k]));
                    assert('0' <= digits[k] <= '9');
                }
                assert(b =~= digits);
            }
            if b == digits {
                assert forall|k: int| 0 <= k < n implies #[trigger] a[k] == digits[k] by {
                    assert(a[k] == ascii_upper(b[k]));
                    assert('0' <= digits[k] <= '9');
                }
                assert(a =~= digits);
            }
        }
    }
    if occurs(u, digits) {
        let i = choose|i: int| #[trigger] occurs_at(u, digits, i);
        assert(occurs_at(s, digits, i));
    }
    if occurs(s, digits) {
        let i = choose|i: int| #[trigger] occurs_at(s, digits, i);
        assert(occurs_at(u, digits, i));
    }
}

/// A label and the same label in ASCII upper case stand for the same device.
pub proof fn letter_case_keeps_device(label: Seq<char>)
    ensures
        device_number(ascii_uppered(label)) == device_number(label),
{
    reveal_strlit("7058");
    reveal_strlit("7051");
    digits_keep_their_place(label, "7058"@);
    digits_keep_their_place(label, "7051"@);
}

} // verus!
