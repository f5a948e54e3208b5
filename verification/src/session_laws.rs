//! What holds of sessions: each of them ends with `exit`, commands reach the
//! shell as they are, answers are kept, and the shell reads no flash command in a
//! session that dumps or compares.
use vstd::prelude::*;

use crate::session::{closing, dump_session, failed_session, flash_session, opening, shell_input};
use crate::session::verify_session;
use crate::text::{joined, lines, split_at_each, split_is_not_empty, without_cr};

verus! {

/// Splitting two texts with a separator between them splits each of them.
pub proof fn split_both_sides(a: Seq<char>, b: Seq<char>, sep: char)
    ensures
        split_at_each(a.push(sep) + b, sep) == split_at_each(a, sep) + split_at_each(b, sep),
    decreases b.len(),
{
    let whole = a.push(sep) + b;
    if b.len() == 0 {
        assert(whole =~= a.push(sep));
        assert(whole.drop_last() =~= a);
        assert(split_at_each(whole, sep) =~= split_at_each(a, sep) + split_at_each(b, sep));
    } else {
        assert(whole.drop_last() =~= a.push(sep) + b.drop_last());
        assert(whole.last() == b.last());
        split_both_sides(a, b.drop_last(), sep);
        split_is_not_empty(b.drop_last(), sep);
        assert(split_at_each(whole, sep) =~= split_at_each(a, sep) + split_at_each(b, sep));
    }
}

/// A text without separator is one piece.
pub proof fn split_of_one_piece(s: Seq<char>, sep: char)
    requires
        !s.contains(sep),
    ensures
        split_at_each(s, sep) == seq![s],
    decreases s.len(),
{
    if s.len() > 0 {
        assert(s.last() == s[s.len() - 1]);
        assert(!s.drop_last().contains(sep)) by {
            if s.drop_last().contains(sep) {
                let i = choose|i: int| 0 <= i < s.len() - 1 && s.drop_last()[i] == sep;
                assert(s[i] == sep);
            }
        }
        split_of_one_piece(s.drop_last(), sep);
        assert(s.drop_last().push(s.last()) =~= s);
    } else {
        assert(s =~= Seq::empty());
    }
    assert(split_at_each(s, sep) =~= seq![s]);
}

/// Joined pieces come apart again where no piece holds the separator.
proof fn split_of_joined(parts: Seq<Seq<char>>, sep: char)
    requires
        parts.len() > 0,
        forall|i: int| 0 <= i < parts.len() ==> !(#[trigger] parts[i]).contains(sep),
    ensures
        split_at_each(joined(parts, seq![sep]), sep) == parts,
    decreases parts.len(),
{
    split_of_one_piece(parts.last(), sep);
    if parts.len() == 1 {
        assert(parts =~= seq![parts[0]]);
    } else {
        let before = parts.drop_last();
        assert forall|i: int| 0 <= i < before.len() implies !(#[trigger] before[i]).contains(
            sep,
        ) by {
            assert(before[i] == parts[i]);
        }
        split_of_joined(before, sep);
        let a = joined(before, seq![sep]);
        assert(joined(parts, seq![sep]) =~= a.push(sep) + parts.last());
        split_both_sides(a, parts.last(), sep);
        assert(before + seq![parts.last()] =~= parts);
    }
}

/// The pieces of what is fed to the shell.
proof fn pieces_of_input(commands: Seq<Seq<char>>)
    ensures
        split_at_each(shell_input(commands), '\n') == split_at_each(joined(commands, "\n"@), '\n')
            + seq!["exit"@, Seq::empty()],
{
    reveal_strlit("\nexit\n");
    reveal_strlit("exit");
    let a = joined(commands, "\n"@);
    let none = Seq::<char>::empty();
    assert(shell_input(commands) =~= a.push('\n') + ("exit"@.push('\n') + none));
    split_both_sides(a, "exit"@.push('\n') + none, '\n');
    split_both_sides("exit"@, none, '\n');
    split_of_one_piece("exit"@, '\n');
    split_of_one_piece(none, '\n');
    assert(split_at_each("exit"@.push('\n') + none, '\n') =~= seq!["exit"@, none]);
}

/// The last line that the shell reads is `exit`, whatever the commands.
pub proof fn exit_comes_last(commands: Seq<Seq<char>>)
    ensures
        lines(shell_input(commands)).len() > 0,
        lines(shell_input(commands)).last() == "exit"@,
{
    pieces_of_input(commands);
    reveal_strlit("exit");
    let pieces = split_at_each(shell_input(commands), '\n');
    let ended = pieces.drop_last();
    assert(ended.last() == "exit"@);
    assert(without_cr("exit"@) == "exit"@);
}

/// The shell reads every command as one line, without a carriage return at its
/// end, and then `exit`, where no command holds a newline.
pub proof fn commands_are_lines(commands: Seq<Seq<char>>)
    requires
        commands.len() > 0,
        forall|i: int| 0 <= i < commands.len() ==> !(#[trigger] commands[i]).contains('\n'),
    ensures
        lines(shell_input(commands)) == commands.map_values(|c: Seq<char>| without_cr(c)).push(
            "exit"@,
        ),
{
    pieces_of_input(commands);
    reveal_strlit("exit");
    reveal_strlit("\n");
    assert("\n"@ =~= seq!['\n']);
    split_of_joined(commands, '\n');
    let pieces = split_at_each(shell_input(commands), '\n');
    assert(pieces.drop_last() =~= commands.push("exit"@));
    assert(lines(shell_input(commands)) =~= commands.map_values(
        |c: Seq<char>| without_cr(c),
    ).push("exit"@));
}

/// The shell reads the commands line by line as they are, and then `exit`,
/// where no command holds a newline or ends in a carriage return.
pub proof fn commands_reach_the_shell(commands: Seq<Seq<char>>)
    requires
        commands.len() > 0,
        forall|i: int| 0 <= i < commands.len() ==> !(#[trigger] commands[i]).contains('\n'),
        forall|i: int|
            0 <= i < commands.len() ==> without_cr(#[trigger] commands[i]) == commands[i],
    ensures
        lines(shell_input(commands)) == commands.push("exit"@),
{
    commands_are_lines(commands);
    assert(commands.map_values(|c: Seq<char>| without_cr(c)) =~= commands);
}

/// Joining with a longer last part makes the text longer at its end.
proof fn joined_grows(parts: Seq<Seq<char>>, sep: Seq<char>, c: char)
    requires
        parts.len() > 0,
    ensures
        joined(parts.drop_last().push(parts.last().push(c)), sep) == joined(parts, sep).push(c),
{
    let longer = parts.drop_last().push(parts.last().push(c));
    assert(longer.drop_last() =~= parts.drop_last());
    assert(joined(longer, sep) =~= joined(parts, sep).push(c));
}

/// The pieces of a text, joined by the separator, are the text: nothing of the
/// answers to a flash session is lost.
pub proof fn pieces_rejoin(s: Seq<char>, sep: char)
    ensures
        joined(split_at_each(s, sep), seq![sep]) == s,
    decreases s.len(),
{
    if s.len() == 0 {
        assert(joined(split_at_each(s, sep), seq![sep]) =~= s);
    } else {
        let before = split_at_each(s.drop_last(), sep);
        pieces_rejoin(s.drop_last(), sep);
        split_is_not_empty(s.drop_last(), sep);
        if s.last() == sep {
            assert(before.push(Seq::empty()).drop_last() =~= before);
        } else {
            joined_grows(before, seq![sep], s.last());
        }
        assert(joined(split_at_each(s, sep), seq![sep]) =~= s);
    }
}

/// No piece of a text holds the separator.
pub proof fn pieces_are_free_of_separator(s: Seq<char>, sep: char)
    ensures
        forall|i: int|
            0 <= i < split_at_each(s, sep).len() ==> !(#[trigger] split_at_each(s, sep)[i]).contains(
                sep,
            ),
    decreases s.len(),
{
    let pieces = split_at_each(s, sep);
    if s.len() > 0 {
        let before = split_at_each(s.drop_last(), sep);
        pieces_are_free_of_separator(s.drop_last(), sep);
        split_is_not_empty(s.drop_last(), sep);
        assert forall|i: int| 0 <= i < pieces.len() implies !(#[trigger] pieces[i]).contains(sep) by {
            if i < before.len() {
                assert(!before[i].contains(sep));
            }
            if s.last() != sep && i == before.len() - 1 && pieces[i].contains(sep) {
                let k = choose|k: int| 0 <= k < pieces[i].len() && pieces[i][k] == sep;
                assert(before[i][k] == sep);
            }
        }
    }
}

/// No command of a free session holds a newline.
pub proof fn raw_commands_are_single_lines(script: Seq<char>)
    ensures
        forall|i: int|
            0 <= i < lines(script).len() ==> !(#[trigger] lines(script)[i]).contains('\n'),
{
    let pieces = split_at_each(script, '\n');
    pieces_are_free_of_separator(script, '\n');
    split_is_not_empty(script, '\n');
    assert forall|i: int| 0 <= i < lines(script).len() implies !(#[trigger] lines(
        script,
    )[i]).contains('\n') by {
        let line = lines(script)[i];
        let piece = pieces[i];
        assert(!piece.contains('\n'));
        if line.contains('\n') {
            let k = choose|k: int| 0 <= k < line.len() && line[k] == '\n';
            assert(piece[k] == '\n');
        }
    }
}

/// A flash session without given answers answers the programmer with a single
/// `p`, which makes it a practice run. The shell reads that answer and no other
/// where none of the texts that the session is made of holds a newline.
pub proof fn flash_practices_by_default(device: Seq<char>, kernel: Seq<char>, rom: Seq<char>)
    ensures
        flash_session(device, kernel, rom, "p"@) == opening(device, kernel) + seq![
            "flrom "@ + rom,
            "p"@,
        ] + closing(),
        one_line(device) && one_line(kernel) && one_line(rom) ==> lines(
            shell_input(flash_session(device, kernel, rom, "p"@)),
        ) == (opening(device, kernel) + seq!["flrom "@ + rom, "p"@] + closing()).map_values(
            |c: Seq<char>| without_cr(c),
        ).push("exit"@),
{
    reveal_strlit("p");
    split_of_one_piece("p"@, '\n');
    assert(flash_session(device, kernel, rom, "p"@) =~= opening(device, kernel) + seq![
        "flrom "@ + rom,
        "p"@,
    ] + closing());
    if one_line(device) && one_line(kernel) && one_line(rom) {
        shell_reads_the_answers(device, kernel, rom, "p"@);
    }
}

/// The shell reads a flash session as the commands that open it, the command that
/// flashes, the answers one by one, the commands that close it, and `exit`, each
/// without a carriage return at its end, where the device, the kernel and the ROM
/// hold no newline.
pub proof fn shell_reads_the_answers(
    device: Seq<char>,
    kernel: Seq<char>,
    rom: Seq<char>,
    answers: Seq<char>,
)
    requires
        one_line(device),
        one_line(kernel),
        one_line(rom),
    ensures
        lines(shell_input(flash_session(device, kernel, rom, answers))) == (opening(device, kernel)
            + seq!["flrom "@ + rom] + split_at_each(answers, '\n') + closing()).map_values(
            |c: Seq<char>| without_cr(c),
        ).push("exit"@),
{
    reveal_strlit("npconn");
    reveal_strlit("setdev ");
    reveal_strlit("npconf p3 0");
    reveal_strlit("runkernel ");
    reveal_strlit("flrom ");
    reveal_strlit("stopkernel");
    reveal_strlit("npdisc");
    one_line_of_two("setdev "@, device);
    one_line_of_two("runkernel "@, kernel);
    one_line_of_two("flrom "@, rom);
    pieces_are_free_of_separator(answers, '\n');
    let session = flash_session(device, kernel, rom, answers);
    let given = split_at_each(answers, '\n');
    let front = opening(device, kernel) + seq!["flrom "@ + rom];
    assert(front =~= seq![
        "npconn"@,
        "setdev "@ + device,
        "npconf p3 0"@,
        "runkernel "@ + kernel,
        "flrom "@ + rom,
    ]);
    assert forall|i: int| 0 <= i < session.len() implies !(#[trigger] session[i]).contains(
        '\n',
    ) by {
        if i < front.len() {
            assert(session[i] == front[i]);
            assert(one_line(front[i]));
        } else if i < front.len() + given.len() {
            assert(session[i] == given[i - front.len()]);
        } else {
            assert(session[i] == closing()[i - front.len() - given.len()]);
            assert(one_line(closing()[i - front.len() - given.len()]));
        }
    }
    commands_are_lines(session);
}

/// The shell reads the consent `y` in a flash session only if it is one of the
/// answers that were given, where the device, the kernel and the ROM hold no
/// newline.
pub proof fn consent_is_given(
    device: Seq<char>,
    kernel: Seq<char>,
    rom: Seq<char>,
    answers: Seq<char>,
)
    requires
        one_line(device),
        one_line(kernel),
        one_line(rom),
        lines(shell_input(flash_session(device, kernel, rom, answers))).contains("y"@),
    ensures
        exists|i: int|
            0 <= i < split_at_each(answers, '\n').len() && without_cr(
                #[trigger] split_at_each(answers, '\n')[i],
            ) == "y"@,
{
    reveal_strlit("y");
    reveal_strlit("npconn");
    reveal_strlit("setdev ");
    reveal_strlit("npconf p3 0");
    reveal_strlit("runkernel ");
    reveal_strlit("flrom ");
    reveal_strlit("stopkernel");
    reveal_strlit("npdisc");
    reveal_strlit("exit");
    shell_reads_the_answers(device, kernel, rom, answers);
    let read = lines(shell_input(flash_session(device, kernel, rom, answers)));
    let given = split_at_each(answers, '\n');
    let front = opening(device, kernel) + seq!["flrom "@ + rom];
    let k = choose|k: int| 0 <= k < read.len() && read[k] == "y"@;
    let n = front.len() as int;
    let m = n + given.len();
    assert(read[k].len() == 1);
    assert(front =~= seq![
        "npconn"@,
        "setdev "@ + device,
        "npconf p3 0"@,
        "runkernel "@ + kernel,
        "flrom "@ + rom,
    ]);
    if k < n {
        assert(read[k] == without_cr(front[k]));
        assert(k == 0 || k == 1 || k == 2 || k == 3 || k == 4);
        assert(front[k].len() > 2);
    } else if k < m {
        assert(read[k] == without_cr(given[k - n]));
    } else if k < m + 2 {
        assert(read[k] == without_cr(closing()[k - m]));
        assert(k - m == 0 || k - m == 1);
        assert(closing()[k - m].len() > 2);
    } else {
        assert(read[k] == "exit"@);
    }
}

/// The answers of a flash session stand between the command that asks for them
/// and the end of the session, one command for each, and the shell reads each of
/// them there, without a carriage return at its end, where the device, the kernel
/// and the ROM hold no newline.
pub proof fn answers_follow_the_question(
    device: Seq<char>,
    kernel: Seq<char>,
    rom: Seq<char>,
    answers: Seq<char>,
    i: int,
)
    requires
        0 <= i < split_at_each(answers, '\n').len(),
    ensures
        ({
            let session = flash_session(device, kernel, rom, answers);
            let asked = opening(device, kernel).len() as int;
            &&& session[asked] == "flrom "@ + rom
            &&& session[asked + 1 + i] == split_at_each(answers, '\n')[i]
            &&& session.len() == asked + 1 + split_at_each(answers, '\n').len() + closing().len()
            &&& one_line(device) && one_line(kernel) && one_line(rom) ==> {
                let read = lines(shell_input(session));
                &&& read[asked] == without_cr("flrom "@ + rom)
                &&& read[asked + 1 + i] == without_cr(split_at_each(answers, '\n')[i])
                &&& read.len() == session.len() + 1
            }
        }),
{
    if one_line(device) && one_line(kernel) && one_line(rom) {
        shell_reads_the_answers(device, kernel, rom, answers);
    }
}

/// Every session connects first, and stops the kernel and disconnects last.
pub proof fn sessions_open_and_close(
    device: Seq<char>,
    kernel: Seq<char>,
    file: Seq<char>,
    a: Seq<char>,
    b: Seq<char>,
)
    ensures
        opens_and_closes(dump_session(device, kernel, file, a, b)),
        opens_and_closes(flash_session(device, kernel, file, a)),
        opens_and_closes(verify_session(device, kernel, file)),
{
}

/// The first command connects, and the last two stop the kernel and disconnect.
pub open spec fn opens_and_closes(session: Seq<Seq<char>>) -> bool {
    &&& session.len() >= 3
    &&& session[0] == "npconn"@
    &&& session[session.len() - 2] == "stopkernel"@
    &&& session.last() == "npdisc"@
}

/// No line that the shell reads in the session starts with the command that
/// writes to the flash memory.
pub open spec fn never_flashes(session: Seq<Seq<char>>) -> bool {
    forall|i: int|
        0 <= i < lines(shell_input(session)).len() ==> !"flrom"@.is_prefix_of(
            #[trigger] lines(shell_input(session))[i],
        )
}

/// The text holds no newline.
pub open spec fn one_line(text: Seq<char>) -> bool {
    !text.contains('\n')
}

/// Two texts without newline make one.
proof fn one_line_of_two(a: Seq<char>, b: Seq<char>)
    requires
        one_line(a),
        one_line(b),
    ensures
        one_line(a + b),
{
    if (a + b).contains('\n') {
        let i = choose|i: int| 0 <= i < (a + b).len() && (a + b)[i] == '\n';
        if i < a.len() {
            assert(a[i] == '\n');
        } else {
            assert(b[i - a.len()] == '\n');
        }
    }
}

/// A command on one line that is not the one that writes to the flash memory.
spec fn harmless(command: Seq<char>) -> bool {
    one_line(command) && !"flrom"@.is_prefix_of(command)
}

/// A command is harmless where its word differs from `flrom` in the second or
/// third character.
proof fn other_command(word: Seq<char>, rest: Seq<char>)
    requires
        word.len() >= 3,
        word[1] != 'l' || word[2] != 'r',
        one_line(word),
        one_line(rest),
    ensures
        harmless(word + rest),
{
    reveal_strlit("flrom");
    one_line_of_two(word, rest);
    if "flrom"@.is_prefix_of(word + rest) {
        let start = (word + rest).subrange(0, 5);
        assert(start[1] == word[1] && start[2] == word[2]);
    }
}

/// A session of harmless commands never flashes.
proof fn harmless_session(session: Seq<Seq<char>>)
    requires
        session.len() > 0,
        forall|i: int| 0 <= i < session.len() ==> harmless(#[trigger] session[i]),
    ensures
        never_flashes(session),
{
    commands_are_lines(session);
    reveal_strlit("exit");
    reveal_strlit("flrom");
    let read = lines(shell_input(session));
    assert forall|i: int| 0 <= i < read.len() implies !"flrom"@.is_prefix_of(
        #[trigger] read[i],
    ) by {
        if i < session.len() {
            assert(harmless(session[i]));
            assert(read[i] == without_cr(session[i]));
            if "flrom"@.is_prefix_of(read[i]) {
                assert(session[i].subrange(0, 5) =~= read[i].subrange(0, 5));
            }
        }
    }
}

/// The shell reads no flash command in a session that dumps or compares, where
/// none of the texts that the session is made of holds a newline.
pub proof fn dump_and_verify_never_flash(
    device: Seq<char>,
    kernel: Seq<char>,
    file: Seq<char>,
    start: Seq<char>,
    length: Seq<char>,
)
    requires
        one_line(device),
        one_line(kernel),
        one_line(file),
        one_line(start),
        one_line(length),
    ensures
        never_flashes(dump_session(device, kernel, file, start, length)),
        never_flashes(verify_session(device, kernel, file)),
{
    reveal_strlit("npconn");
    reveal_strlit("setdev ");
    reveal_strlit("npconf p3 0");
    reveal_strlit("runkernel ");
    reveal_strlit("dumpmem ");
    reveal_strlit("flverif ");
    reveal_strlit("stopkernel");
    reveal_strlit("npdisc");
    reveal_strlit(" ");
    let none = Seq::<char>::empty();
    let tail = file + " "@ + start + " "@ + length;
    one_line_of_two(file, " "@);
    one_line_of_two(file + " "@, start);
    one_line_of_two(file + " "@ + start, " "@);
    one_line_of_two(file + " "@ + start + " "@, length);
    other_command("npconn"@, none);
    other_command("setdev "@, device);
    other_command("npconf p3 0"@, none);
    other_command("runkernel "@, kernel);
    other_command("dumpmem "@, tail);
    other_command("flverif "@, file);
    other_command("stopkernel"@, none);
    other_command("npdisc"@, none);
    assert("npconn"@ + none =~= "npconn"@);
    assert("npconf p3 0"@ + none =~= "npconf p3 0"@);
    assert("stopkernel"@ + none =~= "stopkernel"@);
    assert("npdisc"@ + none =~= "npdisc"@);
    assert("dumpmem "@ + tail =~= "dumpmem "@ + file + " "@ + start + " "@ + length);
    let dump = dump_session(device, kernel, file, start, length);
    assert(dump =~= seq![
        "npconn"@,
        "setdev "@ + device,
        "npconf p3 0"@,
        "runkernel "@ + kernel,
        "dumpmem "@ + file + " "@ + start + " "@ + length,
        "stopkernel"@,
        "npdisc"@,
    ]);
    harmless_session(dump);
    let verify = verify_session(device, kernel, file);
    assert(verify =~= seq![
        "npconn"@,
        "setdev "@ + device,
        "runkernel "@ + kernel,
        "flverif "@ + file,
        "stopkernel"@,
        "npdisc"@,
    ]);
    harmless_session(verify);
}

/// A dump session has one command between those that open it and those that close
/// it, and that command names the file, the start and the length, each character
/// for character as given.
pub proof fn dump_asks_for_what_is_given(
    device: Seq<char>,
    kernel: Seq<char>,
    out: Seq<char>,
    start: Seq<char>,
    length: Seq<char>,
)
    ensures
        ({
            let session = dump_session(device, kernel, out, start, length);
            &&& session.len() == 7
            &&& session[0] == "npconn"@
            &&& session[1] == "setdev "@ + device
            &&& session[2] == "npconf p3 0"@
            &&& session[3] == "runkernel "@ + kernel
            &&& session[4] == "dumpmem "@ + out + " "@ + start + " "@ + length
            &&& session[5] == "stopkernel"@
            &&& session[6] == "npdisc"@
        }),
{
}

/// The shell reads exactly the commands of a dump, with the file, the start and the
/// length as given but for a carriage return at the very end, where none of the
/// texts holds a newline.
pub proof fn shell_reads_the_dump(
    device: Seq<char>,
    kernel: Seq<char>,
    out: Seq<char>,
    start: Seq<char>,
    length: Seq<char>,
)
    requires
        one_line(device),
        one_line(kernel),
        one_line(out),
        one_line(start),
        one_line(length),
    ensures
        ({
            let read = lines(shell_input(dump_session(device, kernel, out, start, length)));
            &&& read.len() == 8
            &&& read[4] == without_cr("dumpmem "@ + out + " "@ + start + " "@ + length)
            &&& read[7] == "exit"@
        }),
{
    reveal_strlit("npconn");
    reveal_strlit("setdev ");
    reveal_strlit("npconf p3 0");
    reveal_strlit("runkernel ");
    reveal_strlit("dumpmem ");
    reveal_strlit("stopkernel");
    reveal_strlit("npdisc");
    reveal_strlit(" ");
    one_line_of_two("setdev "@, device);
    one_line_of_two("runkernel "@, kernel);
    one_line_of_two("dumpmem "@, out);
    one_line_of_two("dumpmem "@ + out, " "@);
    one_line_of_two("dumpmem "@ + out + " "@, start);
    one_line_of_two("dumpmem "@ + out + " "@ + start, " "@);
    one_line_of_two("dumpmem "@ + out + " "@ + start + " "@, length);
    let session = dump_session(device, kernel, out, start, length);
    dump_asks_for_what_is_given(device, kernel, out, start, length);
    assert forall|i: int| 0 <= i < session.len() implies !(#[trigger] session[i]).contains(
        '\n',
    ) by {
        assert(one_line("npconn"@));
        assert(one_line("npconf p3 0"@));
        assert(one_line("stopkernel"@));
        assert(one_line("npdisc"@));
        assert(i == 0 || i == 1 || i == 2 || i == 3 || i == 4 || i == 5 || i == 6);
    }
    commands_are_lines(session);
}

/// A flash session names the file as given, right after the commands that open it,
/// and has the given device and kernel in those.
pub proof fn flash_asks_for_what_is_given(
    device: Seq<char>,
    kernel: Seq<char>,
    rom: Seq<char>,
    answers: Seq<char>,
)
    ensures
        ({
            let session = flash_session(device, kernel, rom, answers);
            let n = session.len() as int;
            &&& n == 7 + split_at_each(answers, '\n').len()
            &&& session[0] == "npconn"@
            &&& session[1] == "setdev "@ + device
            &&& session[2] == "npconf p3 0"@
            &&& session[3] == "runkernel "@ + kernel
            &&& session[4] == "flrom "@ + rom
            &&& session.subrange(5, n - 2) == split_at_each(answers, '\n')
            &&& session[n - 2] == "stopkernel"@
            &&& session[n - 1] == "npdisc"@
        }),
{
    let session = flash_session(device, kernel, rom, answers);
    assert(session.subrange(5, session.len() - 2) =~= split_at_each(answers, '\n'));
}

/// The answers that the shell is given, joined by newlines, are the text that they
/// were given as.
pub proof fn flash_loses_no_answer(
    device: Seq<char>,
    kernel: Seq<char>,
    rom: Seq<char>,
    answers: Seq<char>,
)
    ensures
        ({
            let session = flash_session(device, kernel, rom, answers);
            joined(session.subrange(5, session.len() - 2), seq!['\n']) == answers
        }),
{
    flash_asks_for_what_is_given(device, kernel, rom, answers);
    pieces_rejoin(answers, '\n');
}

/// A verify session names the device, the kernel and the file as given, and has six
/// commands.
pub proof fn verify_asks_for_what_is_given(device: Seq<char>, kernel: Seq<char>, rom: Seq<char>)
    ensures
        ({
            let session = verify_session(device, kernel, rom);
            &&& session.len() == 6
            &&& session[0] == "npconn"@
            &&& session[1] == "setdev "@ + device
            &&& session[2] == "runkernel "@ + kernel
            &&& session[3] == "flverif "@ + rom
            &&& session[4] == "stopkernel"@
            &&& session[5] == "npdisc"@
        }),
{
}

/// The text for the shell is every command on a line of its own, and then `exit`: a
/// command in front puts itself and a newline in front.
pub proof fn shell_input_by_command(command: Seq<char>, rest: Seq<Seq<char>>)
    ensures
        shell_input(Seq::empty()) == seq!['\n', 'e', 'x', 'i', 't', '\n'],
        shell_input(seq![command]) == command + seq!['\n', 'e', 'x', 'i', 't', '\n'],
        rest.len() > 0 ==> shell_input(seq![command] + rest) == command.push('\n') + shell_input(
            rest,
        ),
{
    reveal_strlit("\nexit\n");
    reveal_strlit("\n");
    assert("\nexit\n"@ =~= seq!['\n', 'e', 'x', 'i', 't', '\n']);
    assert(shell_input(Seq::empty()) =~= seq!['\n', 'e', 'x', 'i', 't', '\n']);
    assert(shell_input(seq![command]) =~= command + seq!['\n', 'e', 'x', 'i', 't', '\n']);
    if rest.len() > 0 {
        joined_in_front(command, rest, "\n"@);
        assert("\n"@ =~= seq!['\n']);
        assert(shell_input(seq![command] + rest) =~= command.push('\n') + shell_input(rest));
    }
}

/// A part in front of others comes with a separator behind it.
proof fn joined_in_front(part: Seq<char>, rest: Seq<Seq<char>>, sep: Seq<char>)
    requires
        rest.len() > 0,
    ensures
        joined(seq![part] + rest, sep) == part + sep + joined(rest, sep),
    decreases rest.len(),
{
    let all = seq![part] + rest;
    assert(all.drop_last() =~= seq![part] + rest.drop_last());
    assert(all.last() == rest.last());
    if rest.len() == 1 {
        assert(all.drop_last() =~= seq![part]);
        assert(joined(seq![part], sep) == part);
        assert(joined(rest, sep) == rest.last());
        assert(joined(all, sep) =~= part + sep + joined(rest, sep));
    } else {
        joined_in_front(part, rest.drop_last(), sep);
        assert(joined(all, sep) =~= part + sep + joined(rest, sep));
    }
}

/// A failed session is reported with its status and what was printed, and what was
/// printed as an error follows where there is any.
pub proof fn failure_tells_all_that_was_printed(
    status: Seq<char>,
    stdout: Seq<char>,
    stderr: Seq<char>,
)
    ensures
        failed_session(status, stdout, Seq::empty()) == "nisprog exited with status "@ + status
            + "\n--- stdout ---\n"@ + stdout,
        stderr.len() > 0 ==> failed_session(status, stdout, stderr) == failed_session(
            status,
            stdout,
            Seq::empty(),
        ) + "\n--- stderr ---\n"@ + stderr,
{
}

} // verus!
