//! Where the programmer and its files are found. The functions decide on what
//! was seen of the file system, and name a file relative to a folder.
use vstd::prelude::*;
use vstd::utf8::is_ascii_chars;

use crate::ecu::{kernel_base, kernel_for_ecu};
use crate::text::{ascii_uppered, chars_of, trimmed};
use crate::unicode::uppercase;

verus! {

/// A file by its name, and whether the name is a path of its own or a name in
/// a folder that is known from elsewhere.
pub ghost enum Place {
    /// The path itself.
    AsGiven(Seq<char>),
    /// The file of that name in the known folder.
    Beside(Seq<char>),
}

/// The location of a file: a path of its own, or a name in a known folder. The
/// folder is that of the application for the programmer itself, and that of the
/// programmer for the files that it works with.
#[derive(Debug, PartialEq, Eq)]
pub enum Location {
    /// The path itself.
    AsGiven(String),
    /// The file of that name in the known folder.
    Beside(String),
}

impl View for Location {
    type V = Place;

    open spec fn view(&self) -> Place {
        match self {
            Location::AsGiven(name) => Place::AsGiven(name@),
            Location::Beside(name) => Place::Beside(name@),
        }
    }
}

/// What was seen of a file name.
#[derive(Clone, Copy, Debug, PartialEq, Eq, Structural)]
pub struct Probe {
    /// The name is an absolute path.
    pub absolute: bool,
    /// Whether the folder of the programmer holds a file of that name, or
    /// nothing where the programmer's path names no folder.
    pub beside: Option<bool>,
    /// The name, taken as a path, is that of a file.
    pub as_given: bool,
}

/// The file name of the programmer.
pub fn tool_name() -> (r: &'static str)
    ensures
        r@ == "nisprog.exe"@,
{
    "nisprog.exe"
}

/// The place of the programmer: the override where there is one, else the
/// application's folder if it is known to hold the programmer, else the bare
/// name, for the system to look up.
pub open spec fn tool_place(given: Option<String>, beside_app: Option<bool>) -> Place {
    match given {
        Some(path) => Place::AsGiven(path@),
        None => if beside_app == Some(true) {
            Place::Beside("nisprog.exe"@)
        } else {
            Place::AsGiven("nisprog.exe"@)
        },
    }
}

/// Locates the programmer. `given` is the path that overrides all else;
/// `beside_app` tells whether the application's folder holds the programmer,
/// where that folder is known.
pub fn nisprog_path(given: Option<String>, beside_app: Option<bool>) -> (r: Location)
    ensures
        r@ == tool_place(given, beside_app),
{
    match given {
        Some(path) => Location::AsGiven(path),
        None => match beside_app {
            Some(true) => Location::Beside(tool_name().to_owned()),
            _ => Location::AsGiven(tool_name().to_owned()),
        },
    }
}

/// The place of a file that the programmer works with: the programmer's folder,
/// whatever the working folder is, unless the name is an absolute path or the
/// programmer's path names no folder; then the name is the path.
pub open spec fn sidecar_place(name: Seq<char>, probe: Probe) -> Place {
    if !probe.absolute && probe.beside is Some {
        Place::Beside(name)
    } else {
        Place::AsGiven(name)
    }
}

/// Locates a file that the programmer works with, given what was seen of its
/// name.
pub fn resolve_sidecar(name: &str, probe: &Probe) -> (r: Location)
    ensures
        r@ == sidecar_place(name@, *probe),
{
    if probe.absolute {
        return Location::AsGiven(name.to_owned());
    }
    match probe.beside {
        Some(_) => Location::Beside(name.to_owned()),
        None => Location::AsGiven(name.to_owned()),
    }
}

/// There is a file at a place, by what was seen of its name.
pub open spec fn present(place: Place, probe: Probe) -> bool {
    match place {
        Place::Beside(_) => probe.beside == Some(true),
        Place::AsGiven(_) => probe.as_given,
    }
}

/// Whether there is a file at a location.
fn is_present(location: &Location, probe: &Probe) -> (r: bool)
    ensures
        r == present(location@, *probe),
{
    match location {
        Location::Beside(_) => match probe.beside {
            Some(b) => b,
            None => false,
        },
        Location::AsGiven(_) => probe.as_given,
    }
}

/// The kernel file with extension.
pub open spec fn with_bin(base: Seq<char>) -> Seq<char> {
    base + ".bin"@
}

/// The names that a kernel file may have, the preferred one first.
pub fn kernel_candidates(base: &str) -> (r: (String, String))
    ensures
        r.0@ == with_bin(base@),
        r.1@ == base@,
{
    let mut bin: String = base.to_owned();
    bin.append(".bin");
    (bin, base.to_owned())
}

/// The place of the kernel file: the explicit path where there is one, else the
/// first of the two candidate names that is there, else the place of the first
/// candidate.
pub open spec fn kernel_place(
    base: Seq<char>,
    explicit: Option<String>,
    bin: Probe,
    bare: Probe,
) -> Place {
    let first = sidecar_place(with_bin(base), bin);
    let second = sidecar_place(base, bare);
    match explicit {
        Some(path) => Place::AsGiven(path@),
        None => if !present(first, bin) && present(second, bare) {
            second
        } else {
            first
        },
    }
}

/// Locates the kernel file `base`, given what was seen of its two candidate
/// names.
pub fn resolve_named_kernel(base: &str, explicit: Option<String>, bin: &Probe, bare: &Probe) -> (r:
    Location)
    ensures
        r@ == kernel_place(base@, explicit, *bin, *bare),
{
    match explicit {
        Some(path) => Location::AsGiven(path),
        None => {
            let names: (String, String) = kernel_candidates(base);
            let first: Location = resolve_sidecar(names.0.as_str(), bin);
            if is_present(&first, bin) {
                return first;
            }
            let second: Location = resolve_sidecar(names.1.as_str(), bare);
            if is_present(&second, bare) {
                return second;
            }
            first
        },
    }
}

/// Locates the kernel file for an ECU, given what was seen of its two candidate
/// names.
pub fn resolve_kernel(ecu: &str, explicit: Option<String>, bin: &Probe, bare: &Probe) -> (r:
    Location)
    ensures
        r@ == kernel_place(kernel_base(uppercase(trimmed(ecu@))), explicit, *bin, *bare),
        is_ascii_chars(trimmed(ecu@)) ==> r@ == kernel_place(
            kernel_base(ascii_uppered(trimmed(ecu@))),
            explicit,
            *bin,
            *bare,
        ),
{
    let base: String = kernel_for_ecu(ecu);
    resolve_named_kernel(base.as_str(), explicit, bin, bare)
}

/// Whether the programmer is to run in its own folder, given whether the parent
/// of its path, where it has one, is empty.
pub fn enters_folder(parent_is_empty: Option<bool>) -> (r: bool)
    ensures
        r == (parent_is_empty == Some(false)),
{
    match parent_is_empty {
        Some(empty) => !empty,
        None => false,
    }
}

/// The folder that holds staged files of one sort.
pub open spec fn staging_name(tag: Seq<char>) -> Seq<char> {
    "fantom_"@ + tag
}

/// The folder, below the folder for temporary files, that a file is staged in.
/// A path without a file name cannot be staged.
pub fn staging_folder(has_file_name: bool, tag: &str) -> (r: Result<String, String>)
    ensures
        has_file_name ==> (r matches Ok(name) && name@ == staging_name(tag@)),
        !has_file_name ==> (r matches Err(m) && m@ == "staging: bad file name"@),
{
    if !has_file_name {
        return Err("staging: bad file name".to_owned());
    }
    let mut name: String = "fantom_".to_owned();
    name.append(tag);
    Ok(name)
}

/// A text with an underscore in place of every space.
pub open spec fn spaceless(text: Seq<char>) -> Seq<char> {
    text.map_values(
        |c: char|
            if c == ' ' {
                '_'
            } else {
                c
            },
    )
}

/// The name that a file is staged under: its own, with an underscore in place
/// of every space, because the programmer takes no path with spaces.
pub fn staged_name(file_name: &str) -> (r: String)
    ensures
        r@ == spaceless(file_name@),
        !r@.contains(' '),
        r@.len() == file_name@.len(),
        forall|i: int|
            0 <= i < file_name@.len() && file_name@[i] != ' ' ==> #[trigger] r@[i] == file_name@[i],
{
    let v: Vec<char> = chars_of(file_name);
    let mut out: String = String::new();
    let mut i: usize = 0;
    while i < v.len()
        invariant
            i <= v@.len(),
            v@ == file_name@,
            out@ == spaceless(file_name@).take(i as int),
        decreases v.len() - i,
    {
        let c: char = if v[i] == ' ' { '_' } else { v[i] };
        assert(spaceless(file_name@).take(i + 1) =~= spaceless(file_name@).take(i as int).push(c));
        out.push(c);
        i += 1;
    }
    assert(spaceless(file_name@).take(i as int) =~= spaceless(file_name@));
    out
}

/// Where a dump goes.
#[derive(Debug, PartialEq, Eq)]
pub enum DumpTarget {
    /// The path, taken relative to the working folder.
    InWorkingFolder(String),
    /// The path itself.
    AsGiven(String),
    /// The file of that name in the folder for temporary files.
    InTempFolder(String),
}

/// Decides where a dump goes: to the file that was asked for, relative to the
/// working folder if that is known, and otherwise to a file of its own, with a
/// name without spaces, among the temporary files.
pub fn dump_target(out_file: Option<String>, working_folder_known: bool) -> (r: DumpTarget)
    ensures
        match out_file {
            Some(f) => if working_folder_known {
                r == DumpTarget::InWorkingFolder(f)
            } else {
                r == DumpTarget::AsGiven(f)
            },
            None => r matches DumpTarget::InTempFolder(f) && f@ == "fantom_dump.bin"@
                && !f@.contains(' '),
        },
{
    match out_file {
        Some(f) => if working_folder_known {
            DumpTarget::InWorkingFolder(f)
        } else {
            DumpTarget::AsGiven(f)
        },
        None => {
            proof {
                reveal_strlit("fantom_dump.bin");
            }
            DumpTarget::InTempFolder("fantom_dump.bin".to_owned())
        },
    }
}

/// Where one of the candidate names of a kernel is there, the kernel file that
/// is chosen is there, and the one with extension goes before the other.
pub proof fn chosen_kernel_is_there(base: Seq<char>, bin: Probe, bare: Probe)
    requires
        present(sidecar_place(with_bin(base), bin), bin) || present(
            sidecar_place(base, bare),
            bare,
        ),
    ensures
        ({
            let chosen = kernel_place(base, None, bin, bare);
            let first = sidecar_place(with_bin(base), bin);
            let second = sidecar_place(base, bare);
            ||| chosen == first && present(first, bin)
            ||| chosen == second && present(second, bare) && !present(first, bin)
        }),
{
}

/// Where the programmer's path names a folder, a name that is no absolute path
/// stands for the file in that folder, whether the file is there or not.
pub proof fn relative_name_goes_beside(name: Seq<char>, probe: Probe)
    requires
        !probe.absolute,
        probe.beside is Some,
    ensures
        sidecar_place(name, probe) == Place::Beside(name),
{
}

/// Where the programmer's path names a folder, both candidate names of a kernel
/// are looked for in that folder only: the one without extension is taken if the
/// folder holds it and not the other, and the one with extension otherwise. What
/// the working folder holds does not matter.
pub proof fn kernel_is_sought_beside(base: Seq<char>, bin: Probe, bare: Probe)
    requires
        !bin.absolute,
        !bare.absolute,
        bin.beside is Some,
        bare.beside is Some,
    ensures
        kernel_place(base, None, bin, bare) == (if bin.beside != Some(true) && bare.beside == Some(
            true,
        ) {
            Place::Beside(base)
        } else {
            Place::Beside(with_bin(base))
        }),
{
}

/// An explicit kernel path is taken whatever the file system holds.
pub proof fn explicit_kernel_wins(base: Seq<char>, path: String, bin: Probe, bare: Probe)
    ensures
        kernel_place(base, Some(path), bin, bare) == Place::AsGiven(path@),
{
}

/// An absolute path stays as it is.
pub proof fn absolute_path_stays(name: Seq<char>, probe: Probe)
    requires
        probe.absolute,
    ensures
        sidecar_place(name, probe) == Place::AsGiven(name),
{
}

/// Files of different sorts are staged in different folders.
pub proof fn staging_folders_differ(a: Seq<char>, b: Seq<char>)
    requires
        a != b,
    ensures
        staging_name(a) != staging_name(b),
{
    let n = "fantom_"@.len() as int;
    assert(staging_name(a).skip(n) =~= a);
    assert(staging_name(b).skip(n) =~= b);
}

/// Two texts without spaces make one.
proof fn no_space_in_two(a: Seq<char>, b: Seq<char>)
    requires
        !a.contains(' '),
        !b.contains(' '),
    ensures
        !(a + b).contains(' '),
{
    if (a + b).contains(' ') {
        let i = choose|i: int| 0 <= i < (a + b).len() && (a + b)[i] == ' ';
        if i < a.len() {
            assert(a[i] == ' ');
        } else {
            assert(b[i - a.len()] == ' ');
        }
    }
}

/// The name of a staging folder has a space only if its tag has one.
pub proof fn staging_folder_has_no_space(tag: Seq<char>)
    requires
        !tag.contains(' '),
    ensures
        !staging_name(tag).contains(' '),
{
    reveal_strlit("fantom_");
    no_space_in_two("fantom_"@, tag);
}

/// The path of a staged file has no space, whatever the path that the file comes
/// from holds: neither the folder nor the name of the copy has one, and so
/// neither has the path that they make below a folder for temporary files without
/// spaces.
pub proof fn staged_path_has_no_space(
    temp: Seq<char>,
    separator: Seq<char>,
    tag: Seq<char>,
    file_name: Seq<char>,
)
    requires
        !temp.contains(' '),
        !separator.contains(' '),
        !tag.contains(' '),
    ensures
        !staging_name(tag).contains(' '),
        !spaceless(file_name).contains(' '),
        !(temp + separator + staging_name(tag) + separator + spaceless(file_name)).contains(' '),
{
    staging_folder_has_no_space(tag);
    let folder = staging_name(tag);
    no_space_in_two(temp, separator);
    no_space_in_two(temp + separator, folder);
    no_space_in_two(temp + separator + folder, separator);
    no_space_in_two(temp + separator + folder + separator, spaceless(file_name));
}

/// A name without spaces is kept.
pub proof fn spaceless_name_is_kept(file_name: Seq<char>)
    requires
        !file_name.contains(' '),
    ensures
        spaceless(file_name) == file_name,
{
    assert forall|i: int| 0 <= i < file_name.len() implies #[trigger] spaceless(file_name)[i]
        == file_name[i] by {
        assert(file_name.contains(file_name[i]));
    }
    assert(spaceless(file_name) =~= file_name);
}

} // verus!
