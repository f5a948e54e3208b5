//! What holds of locations: which one is chosen for everything that may be seen of
//! the file system.
use vstd::prelude::*;

use crate::locate::{kernel_place, present, sidecar_place, spaceless, staging_name, tool_place};
use crate::locate::{with_bin, Location, Place, Probe};

verus! {

/// The override is taken for the programmer where there is one. Without it, the
/// application's folder is taken if it holds the programmer, and only then.
pub proof fn programmer_is_found_in_order(path: String, beside_app: Option<bool>)
    ensures
        tool_place(Some(path), beside_app) == Place::AsGiven(path@),
        tool_place(None, Some(true)) == Place::Beside("nisprog.exe"@),
        tool_place(None, Some(false)) == Place::AsGiven("nisprog.exe"@),
        tool_place(None, None) == Place::AsGiven("nisprog.exe"@),
{
}

/// A name keeps every character in whatever place it is found.
pub proof fn sidecars_keep_their_name(name: Seq<char>, probe: Probe)
    ensures
        probe.absolute || probe.beside is None ==> sidecar_place(name, probe) == Place::AsGiven(
            name,
        ),
        !probe.absolute && probe.beside is Some ==> sidecar_place(name, probe) == Place::Beside(
            name,
        ),
{
}

/// A file is there if it was seen in the place that it is taken from.
pub proof fn presence_was_seen(name: Seq<char>, probe: Probe)
    ensures
        present(Place::AsGiven(name), probe) == probe.as_given,
        present(Place::Beside(name), probe) == (probe.beside == Some(true)),
{
}

/// Without an explicit path the kernel is called `base` only if that file was seen
/// and the one with `.bin` was not; otherwise it is called `base` with `.bin`. Each
/// is taken from the programmer's folder where there is one.
pub proof fn kernel_for_all_that_is_seen(base: Seq<char>, bin: Probe, bare: Probe)
    ensures
        ({
            let bin_beside = !bin.absolute && bin.beside is Some;
            let bare_beside = !bare.absolute && bare.beside is Some;
            let bin_seen = if bin_beside {
                bin.beside == Some(true)
            } else {
                bin.as_given
            };
            let bare_seen = if bare_beside {
                bare.beside == Some(true)
            } else {
                bare.as_given
            };
            let name = base + seq!['.', 'b', 'i', 'n'];
            &&& bare_seen && !bin_seen && bare_beside ==> kernel_place(base, None, bin, bare)
                == Place::Beside(base)
            &&& bare_seen && !bin_seen && !bare_beside ==> kernel_place(base, None, bin, bare)
                == Place::AsGiven(base)
            &&& (bin_seen || !bare_seen) && bin_beside ==> kernel_place(base, None, bin, bare)
                == Place::Beside(name)
            &&& (bin_seen || !bare_seen) && !bin_beside ==> kernel_place(base, None, bin, bare)
                == Place::AsGiven(name)
        }),
{
    kernel_extension(base);
}

/// The extension of a kernel file is the four characters of `.bin` at its end.
pub proof fn kernel_extension(base: Seq<char>)
    ensures
        with_bin(base) == base + seq!['.', 'b', 'i', 'n'],
{
    reveal_strlit(".bin");
    assert(with_bin(base) =~= base + seq!['.', 'b', 'i', 'n']);
}

/// A staging folder is called `fantom_` and then its tag, character for character.
pub proof fn staging_folder_by_tag(tag: Seq<char>)
    ensures
        staging_name(tag) == seq!['f', 'a', 'n', 't', 'o', 'm', '_'] + tag,
{
    reveal_strlit("fantom_");
    assert(staging_name(tag) =~= seq!['f', 'a', 'n', 't', 'o', 'm', '_'] + tag);
}

/// A staged name has an underscore for every space, and every other character in
/// its place.
pub proof fn staged_name_by_character(name: Seq<char>, i: int)
    requires
        0 <= i < name.len(),
    ensures
        spaceless(name).len() == name.len(),
        name[i] == ' ' ==> spaceless(name)[i] == '_',
        name[i] != ' ' ==> spaceless(name)[i] == name[i],
{
}

/// A location is the place of its name.
pub proof fn locations_are_places(name: String)
    ensures
        Location::AsGiven(name)@ == Place::AsGiven(name@),
        Location::Beside(name)@ == Place::Beside(name@),
{
}

} // verus!
