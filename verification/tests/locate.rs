use fantom::locate::{
    dump_target, enters_folder, kernel_candidates, nisprog_path, resolve_kernel, resolve_named_kernel,
    resolve_sidecar, staged_name, staging_folder, tool_name, DumpTarget, Location, Probe,
};

fn given(s: &str) -> Location {
    Location::AsGiven(s.to_string())
}

fn beside(s: &str) -> Location {
    Location::Beside(s.to_string())
}

const NOWHERE: Probe = Probe { absolute: false, beside: Some(false), as_given: false };
const IN_FOLDER: Probe = Probe { absolute: false, beside: Some(true), as_given: false };
const IN_PLACE: Probe = Probe { absolute: false, beside: None, as_given: true };
const ABSOLUTE: Probe = Probe { absolute: true, beside: Some(true), as_given: true };

#[test]
fn the_override_names_the_programmer() {
    assert_eq!(nisprog_path(Some("/opt/np".to_string()), Some(true)), given("/opt/np"));
    assert_eq!(nisprog_path(Some(String::new()), None), given(""));
}

#[test]
fn the_programmer_is_looked_for_beside_the_application() {
    assert_eq!(nisprog_path(None, Some(true)), beside("nisprog.exe"));
    assert_eq!(nisprog_path(None, Some(false)), given("nisprog.exe"));
    assert_eq!(nisprog_path(None, None), given("nisprog.exe"));
    assert_eq!(tool_name(), "nisprog.exe");
}

#[test]
fn files_are_looked_for_beside_the_programmer() {
    assert_eq!(resolve_sidecar("k.bin", &IN_FOLDER), beside("k.bin"));
    assert_eq!(resolve_sidecar("k.bin", &NOWHERE), beside("k.bin"));
    assert_eq!(resolve_sidecar("k.bin", &IN_PLACE), given("k.bin"));
}

#[test]
fn absolute_paths_stay() {
    assert_eq!(resolve_sidecar("/x/k.bin", &ABSOLUTE), given("/x/k.bin"));
}

#[test]
fn an_explicit_kernel_wins() {
    assert_eq!(
        resolve_kernel("7058", Some("my kernel".to_string()), &IN_FOLDER, &IN_FOLDER),
        given("my kernel")
    );
}

#[test]
fn the_kernel_with_extension_goes_first() {
    assert_eq!(resolve_kernel("sh7058", None, &IN_FOLDER, &IN_FOLDER), beside("npk_SH7058.bin"));
    assert_eq!(resolve_kernel("sh7058", None, &IN_PLACE, &IN_FOLDER), given("npk_SH7058.bin"));
    assert_eq!(resolve_kernel("sh7058", None, &NOWHERE, &IN_FOLDER), beside("npk_SH7058"));
    assert_eq!(resolve_kernel("sh7058", None, &NOWHERE, &IN_PLACE), given("npk_SH7058"));
    assert_eq!(resolve_kernel("sh7058", None, &NOWHERE, &NOWHERE), beside("npk_SH7058.bin"));
    assert_eq!(resolve_named_kernel("base", None, &NOWHERE, &IN_FOLDER), beside("base"));
}

#[test]
fn the_working_folder_does_not_matter() {
    let stray = Probe { absolute: false, beside: Some(false), as_given: true };
    assert_eq!(resolve_sidecar("k.bin", &stray), beside("k.bin"));
    assert_eq!(resolve_kernel("sh7058", None, &stray, &IN_FOLDER), beside("npk_SH7058"));
    assert_eq!(resolve_kernel("sh7058", None, &stray, &NOWHERE), beside("npk_SH7058.bin"));
    assert_eq!(resolve_kernel("sh7058", None, &stray, &stray), beside("npk_SH7058.bin"));
}

#[test]
fn a_kernel_has_two_candidate_names() {
    assert_eq!(kernel_candidates("npk_7058"), ("npk_7058.bin".to_string(), "npk_7058".to_string()));
}

#[test]
fn the_programmer_runs_in_its_folder() {
    assert!(enters_folder(Some(false)));
    assert!(!enters_folder(Some(true)));
    assert!(!enters_folder(None));
}

#[test]
fn staging_folders() {
    assert_eq!(staging_folder(true, "kernels"), Ok("fantom_kernels".to_string()));
    assert_eq!(staging_folder(true, "roms"), Ok("fantom_roms".to_string()));
    assert_eq!(staging_folder(false, "roms"), Err("staging: bad file name".to_string()));
    assert!(!staging_folder(true, "roms").unwrap().contains(' '));
}

#[test]
fn staged_names_have_no_space() {
    assert_eq!(staged_name("npk_SH7058.bin"), "npk_SH7058.bin");
    assert_eq!(staged_name("my  rom v2.bin"), "my__rom_v2.bin");
    assert_eq!(staged_name(" "), "_");
    assert_eq!(staged_name(""), "");
    assert_eq!(staged_name("\u{e9}\tx"), "\u{e9}\tx");
    let path = format!("/tmp/{}/{}", staging_folder(true, "roms").unwrap(), staged_name("a b c.bin"));
    assert_eq!(path, "/tmp/fantom_roms/a_b_c.bin");
    assert!(!path.contains(' '));
}

#[test]
fn dump_targets() {
    assert_eq!(dump_target(Some("d.bin".to_string()), true), DumpTarget::InWorkingFolder("d.bin".to_string()));
    assert_eq!(dump_target(Some("d.bin".to_string()), false), DumpTarget::AsGiven("d.bin".to_string()));
    assert_eq!(dump_target(None, true), DumpTarget::InTempFolder("fantom_dump.bin".to_string()));
    assert_eq!(dump_target(None, false), DumpTarget::InTempFolder("fantom_dump.bin".to_string()));
}
