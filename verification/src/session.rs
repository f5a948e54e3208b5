//! Sessions with the programmer's interactive shell: the commands of a session,
//! the text that is fed to the shell, and what comes of it.
use vstd::prelude::*;
use vstd::utf8::{decode_utf8, is_ascii_chars, valid_utf8};

use crate::ecu::{device_number, or_default, setdev_num_for_ecu, text_or};
use crate::text::{join, joined, lines, lines_of, split_at_each, split_each, views};
use crate::unicode::{from_utf8_lossy, lossy_text, uppercase};

verus! {

/// The commands that connect to the ECU and start the kernel.
pub open spec fn opening(device: Seq<char>, kernel: Seq<char>) -> Seq<Seq<char>> {
    seq!["npconn"@, "setdev "@ + device, "npconf p3 0"@, "runkernel "@ + kernel]
}

/// The commands that stop the kernel and disconnect.
pub open spec fn closing() -> Seq<Seq<char>> {
    seq!["stopkernel"@, "npdisc"@]
}

/// The commands of a session that dumps `length` bytes of memory from `start`
/// on to the file `out`.
pub open spec fn dump_session(
    device: Seq<char>,
    kernel: Seq<char>,
    out: Seq<char>,
    start: Seq<char>,
    length: Seq<char>,
) -> Seq<Seq<char>> {
    opening(device, kernel) + seq!["dumpmem "@ + out + " "@ + start + " "@ + length] + closing()
}

/// The commands of a session that flashes the file `rom`. Every line of
/// `answers` answers one question.
pub open spec fn flash_session(
    device: Seq<char>,
    kernel: Seq<char>,
    rom: Seq<char>,
    answers: Seq<char>,
) -> Seq<Seq<char>> {
    opening(device, kernel) + seq!["flrom "@ + rom] + split_at_each(answers, '\n') + closing()
}

/// The commands of a session that compares the file `rom` with the memory of
/// the ECU.
pub open spec fn verify_session(device: Seq<char>, kernel: Seq<char>, rom: Seq<char>) -> Seq<
    Seq<char>,
> {
    seq!["npconn"@, "setdev "@ + device, "runkernel "@ + kernel, "flverif "@ + rom] + closing()
}

/// A command of a word and what follows it.
fn command(word: &str, rest: &str) -> (r: String)
    ensures
        r@ == word@ + rest@,
{
    let mut out: String = word.to_owned();
    out.append(rest);
    out
}

/// Adds the commands that stop the kernel and disconnect.
fn close(script: &mut Vec<String>)
    ensures
        views(final(script)@) == views(old(script)@) + closing(),
{
    script.push("stopkernel".to_owned());
    script.push("npdisc".to_owned());
    assert(views(script@) =~= views(old(script)@) + closing());
}

/// The commands that connect to the ECU and start the kernel.
fn open_session(device: &str, kernel: &str) -> (r: Vec<String>)
    ensures
        views(r@) == opening(device@, kernel@),
{
    let mut script: Vec<String> = Vec::new();
    script.push("npconn".to_owned());
    script.push(command("setdev ", device));
    script.push("npconf p3 0".to_owned());
    script.push(command("runkernel ", kernel));
    assert(views(script@) =~= opening(device@, kernel@));
    script
}

/// The commands of a dump for a device number. From address 0 and of length 0,
/// which is the whole ROM, unless other values are given.
pub fn device_dump_script(
    device: &str,
    kernel: &str,
    out: &str,
    start: Option<String>,
    length: Option<String>,
) -> (r: Vec<String>)
    ensures
        views(r@) == dump_session(
            device@,
            kernel@,
            out@,
            text_or(start, "0"@),
            text_or(length, "0"@),
        ),
{
    let mut script: Vec<String> = open_session(device, kernel);
    let mut dump: String = command("dumpmem ", out);
    dump.append(" ");
    dump.append(or_default(start, "0").as_str());
    dump.append(" ");
    dump.append(or_default(length, "0").as_str());
    let ghost opened = views(script@);
    script.push(dump);
    assert(views(script@) =~= opened + seq![dump@]);
    close(&mut script);
    script
}

/// The commands of a dump of an ECU's ROM to the file `out`.
pub fn dump_script(
    ecu: &str,
    kernel: &str,
    out: &str,
    start: Option<String>,
    length: Option<String>,
) -> (r: Vec<String>)
    ensures
        views(r@) == dump_session(
            device_number(uppercase(ecu@)),
            kernel@,
            out@,
            text_or(start, "0"@),
            text_or(length, "0"@),
        ),
        is_ascii_chars(ecu@) ==> views(r@) == dump_session(
            device_number(ecu@),
            kernel@,
            out@,
            text_or(start, "0"@),
            text_or(length, "0"@),
        ),
{
    device_dump_script(setdev_num_for_ecu(ecu), kernel, out, start, length)
}

/// The report on a dump: the file that it went to, and what the programmer
/// printed.
pub fn dump_report(out: &str, printed: &str) -> (r: String)
    ensures
        r@ == "DUMP_OK path="@ + out@ + "\n"@ + printed@,
{
    let mut m: String = command("DUMP_OK path=", out);
    m.append("\n");
    m.append(printed);
    m
}

/// The file to flash, which is `dump.bin` unless another is given.
pub fn flash_source(rom_file: Option<String>) -> (r: String)
    ensures
        r@ == text_or(rom_file, "dump.bin"@),
{
    or_default(rom_file, "dump.bin")
}

/// The commands of a flash for a device number. The questions are answered with
/// the lines of `confirm`, and with a single `p`, a practice run that writes
/// nothing, unless answers are given.
pub fn device_flash_script(device: &str, kernel: &str, rom: &str, confirm: Option<String>) -> (r:
    Vec<String>)
    ensures
        views(r@) == flash_session(device@, kernel@, rom@, text_or(confirm, "p"@)),
{
    let mut script: Vec<String> = open_session(device, kernel);
    let ghost opened = views(script@);
    script.push(command("flrom ", rom));
    assert(views(script@) =~= opened + seq!["flrom "@ + rom@]);
    let confirm: String = or_default(confirm, "p");
    let mut answers: Vec<String> = split_each(confirm.as_str(), '\n');
    let ghost asked = views(script@);
    let ghost given = views(answers@);
    script.append(&mut answers);
    assert(views(script@) =~= asked + given);
    close(&mut script);
    script
}

/// The commands of a flash of the file `rom` to an ECU.
pub fn flash_script(ecu: &str, kernel: &str, rom: &str, confirm: Option<String>) -> (r: Vec<String>)
    ensures
        views(r@) == flash_session(
            device_number(uppercase(ecu@)),
            kernel@,
            rom@,
            text_or(confirm, "p"@),
        ),
        is_ascii_chars(ecu@) ==> views(r@) == flash_session(
            device_number(ecu@),
            kernel@,
            rom@,
            text_or(confirm, "p"@),
        ),
{
    device_flash_script(setdev_num_for_ecu(ecu), kernel, rom, confirm)
}

/// The commands of a comparison for a device number.
pub fn device_verify_script(device: &str, kernel: &str, rom: &str) -> (r: Vec<String>)
    ensures
        views(r@) == verify_session(device@, kernel@, rom@),
{
    let mut script: Vec<String> = Vec::new();
    script.push("npconn".to_owned());
    script.push(command("setdev ", device));
    script.push(command("runkernel ", kernel));
    script.push(command("flverif ", rom));
    assert(views(script@) =~= seq![
        "npconn"@,
        "setdev "@ + device@,
        "runkernel "@ + kernel@,
        "flverif "@ + rom@,
    ]);
    close(&mut script);
    script
}

/// The commands of a comparison of the file `rom` with an ECU's flash contents.
pub fn verify_script(ecu: &str, kernel: &str, rom: &str) -> (r: Vec<String>)
    ensures
        views(r@) == verify_session(device_number(uppercase(ecu@)), kernel@, rom@),
        is_ascii_chars(ecu@) ==> views(r@) == verify_session(device_number(ecu@), kernel@, rom@),
{
    device_verify_script(setdev_num_for_ecu(ecu), kernel, rom)
}

/// The commands of a free session: one for every line of `script`.
pub fn nisprog_raw(script: &str) -> (r: Vec<String>)
    ensures
        views(r@) == lines(script@),
{
    lines_of(script)
}

/// The text that a list of commands is fed to the shell as: one command on a
/// line, and `exit` at the end.
pub open spec fn shell_input(commands: Seq<Seq<char>>) -> Seq<char> {
    joined(commands, "\n"@) + "\nexit\n"@
}

/// The text that a list of commands is fed to the shell as.
pub fn script_text(commands: &[String]) -> (r: String)
    ensures
        r@ == shell_input(views(commands@)),
{
    let mut text: String = join(commands, "\n");
    text.append("\nexit\n");
    text
}

/// The report on a session that failed with exit status `status`.
pub open spec fn failed_session(
    status: Seq<char>,
    stdout: Seq<char>,
    stderr: Seq<char>,
) -> Seq<char> {
    let told = "nisprog exited with status "@ + status + "\n--- stdout ---\n"@ + stdout;
    if stderr.len() == 0 {
        told
    } else {
        told + "\n--- stderr ---\n"@ + stderr
    }
}

/// What a session comes to: the text that the programmer printed, or a report
/// with its exit status, that text, and its error text if it has any.
pub fn session_outcome(success: bool, status: &str, stdout: String, stderr: &str) -> (r: Result<
    String,
    String,
>)
    ensures
        success ==> r == Ok::<String, String>(stdout),
        !success ==> (r matches Err(m) && m@ == failed_session(status@, stdout@, stderr@)),
{
    if success {
        return Ok(stdout);
    }
    let mut m: String = command("nisprog exited with status ", status);
    m.append("\n--- stdout ---\n");
    m.append(stdout.as_str());
    if !stderr.is_empty() {
        m.append("\n--- stderr ---\n");
        m.append(stderr);
    }
    Err(m)
}

/// What a session comes to, given the bytes that the programmer printed. Bytes
/// that are no UTF-8 show as replacement characters.
pub fn session_result(success: bool, status: &str, stdout: &[u8], stderr: &[u8]) -> (r: Result<
    String,
    String,
>)
    ensures
        success ==> (r matches Ok(text) && text@ == lossy_text(stdout@)),
        success && valid_utf8(stdout@) ==> (r matches Ok(text) && text@ == decode_utf8(stdout@)),
        !success ==> (r matches Err(m) && m@ == failed_session(
            status@,
            lossy_text(stdout@),
            lossy_text(stderr@),
        )),
        !success && valid_utf8(stdout@) && valid_utf8(stderr@) ==> (r matches Err(m) && m@
            == failed_session(status@, decode_utf8(stdout@), decode_utf8(stderr@))),
{
    let out: String = from_utf8_lossy(stdout);
    let err: String = from_utf8_lossy(stderr);
    session_outcome(success, status, out, err.as_str())
}

} // verus!
