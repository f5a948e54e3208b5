//! What holds of ECU labels: which device a label stands for, and how a kernel is
//! called.
use vstd::prelude::*;

use crate::ecu::{device_number, kernel_base, text_or};
use crate::text::occurs;
use crate::text_laws::occurring_is_starting_somewhere;

verus! {

/// A literal occurs in a label if and only if the label starts with its characters
/// after some are skipped.
proof fn found_from(label: Seq<char>, pattern: Seq<char>, literal: Seq<char>)
    requires
        pattern == literal,
    ensures
        occurs(label, literal) <==> exists|i: int|
            0 <= i <= label.len() && pattern.is_prefix_of(#[trigger] label.skip(i)),
{
    occurring_is_starting_somewhere(label, literal);
}

/// The device is number 2 if and only if the label names the 7058, number 0 if and
/// only if it names the 7051 and not the 7058, and number 1 otherwise: so a label
/// that names the 7055 alone gets 1.
pub proof fn device_by_family(label: Seq<char>)
    ensures
        ({
            let names_7058 = exists|i: int|
                0 <= i <= label.len() && seq!['7', '0', '5', '8'].is_prefix_of(
                    #[trigger] label.skip(i),
                );
            let names_7051 = exists|i: int|
                0 <= i <= label.len() && seq!['7', '0', '5', '1'].is_prefix_of(
                    #[trigger] label.skip(i),
                );
            &&& device_number(label) == seq!['2'] <==> names_7058
            &&& device_number(label) == seq!['0'] <==> names_7051 && !names_7058
            &&& device_number(label) == seq!['1'] <==> !names_7051 && !names_7058
        }),
{
    reveal_strlit("7058");
    reveal_strlit("7051");
    reveal_strlit("0");
    reveal_strlit("1");
    reveal_strlit("2");
    assert(seq!['7', '0', '5', '8'] =~= "7058"@);
    assert(seq!['7', '0', '5', '1'] =~= "7051"@);
    assert("0"@ =~= seq!['0']);
    assert("1"@ =~= seq!['1']);
    assert("2"@ =~= seq!['2']);
    assert(seq!['0'][0] != seq!['1'][0]);
    assert(seq!['0'][0] != seq!['2'][0]);
    assert(seq!['1'][0] != seq!['2'][0]);
    found_from(label, seq!['7', '0', '5', '8'], "7058"@);
    found_from(label, seq!['7', '0', '5', '1'], "7051"@);
}

/// Whatever text stands around it, the 7058 that a label names is found.
pub proof fn family_is_found_anywhere(before: Seq<char>, after: Seq<char>)
    ensures
        device_number(before + seq!['7', '0', '5', '8'] + after) == seq!['2'],
{
    let label = before + seq!['7', '0', '5', '8'] + after;
    device_by_family(label);
    let at = before.len() as int;
    assert(label.skip(at).subrange(0, 4) =~= seq!['7', '0', '5', '8']);
    assert(seq!['7', '0', '5', '8'].is_prefix_of(label.skip(at)));
}

/// A kernel is called `npk_` and then its family, character for character.
pub proof fn kernels_are_called_by_family(family: Seq<char>)
    ensures
        kernel_base(family) == seq!['n', 'p', 'k', '_'] + family,
{
    reveal_strlit("npk_");
    assert(kernel_base(family) =~= seq!['n', 'p', 'k', '_'] + family);
}

/// A text that is given is taken as it is, and the default only without one.
pub proof fn defaults_give_way(text: String, default: Seq<char>)
    ensures
        text_or(Some(text), default) == text@,
        text_or(None, default) == default,
{
}

} // verus!
