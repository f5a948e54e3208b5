//! What holds of calibration tables: reading and writing undo each other, a
//! write touches its own table only, and addresses may carry a prefix.
use vstd::prelude::*;

use crate::numeral::{digit, digit_run, digit_value, hex_reading, hex_value, numeral, HexError};
use crate::rom_table::{address_digits, bad_address, big_endian, cell_count, described, element};
use crate::rom_table::{layout_is, past_end, patch_is, table_values, type_is_wide, with_table};
use crate::rom_table::{write_notice, TableLayout, TablePatch, TableShape};
use crate::text::{ascii_lower, ascii_lowered, strip_all, trim_back, trim_front, trimmed};
use crate::text::white_space;
use crate::text_laws::trimming_by_character;

verus! {

/// The part of `v` that an element of the table has room for.
pub open spec fn kept_part(t: TableShape, v: u32) -> u32 {
    if t.wide {
        v % 65536
    } else {
        v % 256
    }
}

/// Reading a table after writing it gives back the values that were written,
/// each cut down to the width of an element.
pub proof fn read_after_write(bytes: Seq<u8>, t: TableShape, values: Seq<u32>)
    requires
        values.len() == t.count,
        t.end() <= bytes.len(),
    ensures
        table_values(with_table(bytes, t, values), t) == values.map_values(
            |v: u32| kept_part(t, v),
        ),
{
    let after = with_table(bytes, t, values);
    let read = table_values(after, t);
    assert forall|i: int| 0 <= i < t.count implies #[trigger] read[i] == kept_part(t, values[i]) by {
        let a = t.at(i);
        assert(t.addr <= a < t.end());
        let v = values[i] as int;
        if t.wide {
            assert((a - t.addr) / 2 == i && (a + 1 - t.addr) / 2 == i);
            assert(v % 65536 == (v / 256 % 256) * 256 + v % 256);
        }
    }
    assert(read =~= values.map_values(|v: u32| kept_part(t, v)));
}

/// Where every value fits an element, reading after writing gives back exactly
/// the values that were written.
pub proof fn read_after_fitting_write(bytes: Seq<u8>, t: TableShape, values: Seq<u32>)
    requires
        values.len() == t.count,
        t.end() <= bytes.len(),
        forall|i: int|
            0 <= i < values.len() ==> #[trigger] values[i] < (if t.wide {
                65536int
            } else {
                256int
            }),
    ensures
        table_values(with_table(bytes, t, values), t) == values,
{
    read_after_write(bytes, t, values);
    assert(values.map_values(|v: u32| kept_part(t, v)) =~= values);
}

/// Every value that is read fits an element.
pub proof fn values_fit(bytes: Seq<u8>, t: TableShape, i: int)
    requires
        0 <= i < t.count,
    ensures
        table_values(bytes, t)[i] < (if t.wide {
            65536int
        } else {
            256int
        }),
{
}

/// Writing back the values that were read leaves the image as it was.
pub proof fn write_after_read(bytes: Seq<u8>, t: TableShape)
    requires
        t.end() <= bytes.len(),
    ensures
        with_table(bytes, t, table_values(bytes, t)) == bytes,
{
    let values = table_values(bytes, t);
    let after = with_table(bytes, t, values);
    assert forall|p: int| 0 <= p < bytes.len() implies #[trigger] after[p] == bytes[p] by {
        if t.addr <= p < t.end() {
            let d = p - t.addr;
            if t.wide {
                let i = d / 2;
                assert(0 <= i < t.count);
                assert(t.at(i) == p - d % 2);
                let x = bytes[t.at(i)] as int;
                let y = bytes[t.at(i) + 1] as int;
                assert((x * 256 + y) / 256 % 256 == x && (x * 256 + y) % 256 == y);
                assert((x + y * 256) / 256 % 256 == y && (x + y * 256) % 256 == x);
                assert(values[i] == element(bytes, t.at(i), t.wide, t.big));
            } else {
                assert(values[d] == element(bytes, t.at(d), t.wide, t.big));
            }
        }
    }
    assert(after =~= bytes);
}

/// A write keeps the length of the image and every byte outside its table.
pub proof fn write_stays_inside(bytes: Seq<u8>, t: TableShape, values: Seq<u32>)
    ensures
        with_table(bytes, t, values).len() == bytes.len(),
        forall|p: int|
            0 <= p < bytes.len() && !(t.addr <= p < t.end()) ==> #[trigger] with_table(
                bytes,
                t,
                values,
            )[p] == bytes[p],
{
}

/// A write does not change what a table reads that shares no byte with the
/// table written.
pub proof fn tables_apart(bytes: Seq<u8>, t: TableShape, values: Seq<u32>, other: TableShape)
    requires
        t.end() <= bytes.len(),
        other.end() <= bytes.len(),
        other.end() <= t.addr || t.end() <= other.addr,
    ensures
        table_values(with_table(bytes, t, values), other) == table_values(bytes, other),
{
    let after = with_table(bytes, t, values);
    assert forall|i: int| 0 <= i < other.count implies #[trigger] table_values(after, other)[i]
        == table_values(bytes, other)[i] by {
        let a = other.at(i);
        assert(other.addr <= a && a + other.width(1) <= other.end());
        assert(after[a] == bytes[a]);
        if other.wide {
            assert(after[a + 1] == bytes[a + 1]);
        }
    }
    assert(table_values(after, other) =~= table_values(bytes, other));
}

/// Of two writes to the same table only the later one shows.
pub proof fn later_write_wins(
    bytes: Seq<u8>,
    t: TableShape,
    earlier: Seq<u32>,
    later: Seq<u32>,
)
    ensures
        with_table(with_table(bytes, t, earlier), t, later) == with_table(bytes, t, later),
{
    assert(with_table(with_table(bytes, t, earlier), t, later) =~= with_table(bytes, t, later));
}

/// Reading and writing go by the same rules: a description of as many cells as
/// there are values gives the same table either way. So what is read by a
/// description, after these values were written by it to an image that holds the
/// table, is the values, each cut down to the width of an element.
pub proof fn read_and_write_share_tables(
    address: Seq<char>,
    wide: bool,
    endian: Option<String>,
    size_x: u32,
    size_y: u32,
    values: Seq<u32>,
)
    requires
        values.len() == cell_count(size_x, size_y),
    ensures
        described(address, wide, endian, cell_count(size_x, size_y)) == described(
            address,
            wide,
            endian,
            values.len(),
        ),
        described(address, wide, endian, cell_count(size_x, size_y)) matches Ok(Some(read)) ==> (
        described(address, wide, endian, values.len()) matches Ok(Some(written)) && forall|
            bytes: Seq<u8>,
        |
            read.end() <= bytes.len() ==> table_values(
                #[trigger] with_table(bytes, written, values),
                read,
            ) == values.map_values(|v: u32| kept_part(read, v))),
{
    if let Ok(Some(t)) = described(address, wide, endian, values.len()) {
        assert forall|bytes: Seq<u8>| t.end() <= bytes.len() implies table_values(
            #[trigger] with_table(bytes, t, values),
            t,
        ) == values.map_values(|v: u32| kept_part(t, v)) by {
            read_after_write(bytes, t, values);
        }
    }
}

/// Values come row by row: the one in column `x` of row `y` has index
/// `y * columns + x`, and is the element that many elements after the address
/// of the table. A size of zero counts as one.
pub proof fn rows_in_order(bytes: Seq<u8>, t: TableShape, size_x: u32, size_y: u32, x: int, y: int)
    requires
        t.count == cell_count(size_x, size_y),
        0 <= x < size_x || (x == 0 && size_x == 0),
        0 <= y < size_y || (y == 0 && size_y == 0),
    ensures
        ({
            let columns = if size_x == 0 {
                1
            } else {
                size_x as int
            };
            let i = y * columns + x;
            &&& 0 <= i < table_values(bytes, t).len()
            &&& table_values(bytes, t)[i] == element(bytes, t.addr + t.width(i), t.wide, t.big)
        }),
{
    let columns: int = if size_x == 0 {
        1
    } else {
        size_x as int
    };
    let rows: int = if size_y == 0 {
        1
    } else {
        size_y as int
    };
    assert(0 <= y * columns + x < columns * rows) by (nonlinear_arith)
        requires
            0 <= x < columns,
            0 <= y < rows,
    ;
}

/// The two byte orders read a two-byte element from swapped bytes.
pub proof fn orders_swap_bytes(bytes: Seq<u8>, swapped: Seq<u8>, at: int)
    requires
        bytes[at] == swapped[at + 1],
        bytes[at + 1] == swapped[at],
    ensures
        element(bytes, at, true, true) == element(swapped, at, true, false),
{
}

/// White space that only ends a text is the same white space behind a prefix.
proof fn trim_back_behind(prefix: Seq<char>, s: Seq<char>)
    requires
        prefix.len() > 0,
        !white_space(prefix.last()),
    ensures
        trim_back(prefix + s) == prefix + trim_back(s),
    decreases s.len(),
{
    if s.len() == 0 {
        assert(prefix + s == prefix);
    } else {
        assert((prefix + s).drop_last() == prefix + s.drop_last());
        assert((prefix + s).last() == s.last());
        trim_back_behind(prefix, s.drop_last());
    }
}

/// A text that starts with no white space, behind a prefix without any.
proof fn trimmed_behind(prefix: Seq<char>, s: Seq<char>)
    requires
        prefix.len() > 0,
        !white_space(prefix[0]),
        !white_space(prefix.last()),
        s.len() == 0 || !white_space(s[0]),
    ensures
        trimmed(prefix + s) == prefix + trimmed(s),
{
    assert((prefix + s)[0] == prefix[0]);
    trim_back_behind(prefix, s);
}

/// An address may be written with the prefix `0x`: it stands for the same
/// offset with and without it.
pub proof fn lower_prefix_is_optional(s: Seq<char>)
    requires
        s.len() == 0 || !white_space(s[0]),
    ensures
        address_digits("0x"@ + s) == address_digits(s),
{
    reveal_strlit("0x");
    trimmed_behind("0x"@, s);
    let t = trimmed(s);
    assert("0x"@.is_prefix_of("0x"@ + t)) by {
        assert(("0x"@ + t).subrange(0, 2) =~= "0x"@);
    }
    assert(("0x"@ + t).skip(2) =~= t);
}

/// An address may be written with the prefix `0X`, provided that no `0x`
/// follows it.
pub proof fn upper_prefix_is_optional(s: Seq<char>)
    requires
        s.len() == 0 || !white_space(s[0]),
        !"0x"@.is_prefix_of(s),
    ensures
        address_digits("0X"@ + s) == address_digits(s),
{
    reveal_strlit("0x");
    reveal_strlit("0X");
    trimmed_behind("0X"@, s);
    let t = trimmed(s);
    trim_is_prefix(s);
    assert(!"0x"@.is_prefix_of(t)) by {
        if "0x"@.is_prefix_of(t) {
            assert(s.subrange(0, 2) =~= t.subrange(0, 2));
        }
    }
    assert(!"0x"@.is_prefix_of("0X"@ + t)) by {
        assert(("0X"@ + t)[1] == 'X');
        if "0x"@.is_prefix_of("0X"@ + t) {
            assert(("0X"@ + t).subrange(0, 2)[1] == "0x"@[1]);
        }
    }
    assert("0X"@.is_prefix_of("0X"@ + t)) by {
        assert(("0X"@ + t).subrange(0, 2) =~= "0X"@);
    }
    assert(("0X"@ + t).skip(2) =~= t);
}

/// Trimming the end of a text leaves a prefix of it.
proof fn trim_is_prefix(s: Seq<char>)
    ensures
        trim_back(s).len() <= s.len(),
        forall|i: int| 0 <= i < trim_back(s).len() ==> #[trigger] trim_back(s)[i] == s[i],
    decreases s.len(),
{
    if s.len() > 0 && white_space(s.last()) {
        trim_is_prefix(s.drop_last());
    }
}

/// A written out number consists of digits and stands for the number.
proof fn numeral_value(n: nat)
    ensures
        numeral(n, 16).len() > 0,
        forall|i: int|
            0 <= i < numeral(n, 16).len() ==> digit_value(#[trigger] numeral(n, 16)[i]) is Some,
        hex_value(numeral(n, 16)) == n,
    decreases n,
{
    let s = numeral(n, 16);
    reveal_with_fuel(hex_value, 2);
    if n < 16 {
        assert(s =~= seq![digit(n)]);
        assert(s.drop_last() =~= Seq::<char>::empty());
        assert(digit_value(digit(n)) == Some(n));
    } else {
        numeral_value(n / 16);
        assert(s.drop_last() =~= numeral(n / 16, 16));
        assert(digit_value(digit(n % 16)) == Some(n % 16));
    }
}

/// A run of digits is as long as the text when the text holds nothing else.
proof fn all_digits_run(s: Seq<char>)
    requires
        forall|i: int| 0 <= i < s.len() ==> digit_value(#[trigger] s[i]) is Some,
    ensures
        digit_run(s) == s.len(),
    decreases s.len(),
{
    if s.len() > 0 {
        let rest = s.skip(1);
        assert forall|i: int| 0 <= i < rest.len() implies digit_value(#[trigger] rest[i]) is Some by {
            assert(rest[i] == s[i + 1]);
        }
        all_digits_run(rest);
    }
}

/// The hexadecimal form of an address, as reports show it, reads back as the
/// address.
pub proof fn shown_address_reads_back(addr: u64)
    ensures
        hex_reading(address_digits("0x"@ + numeral(addr as nat, 16))) == Ok::<
            u64,
            crate::numeral::HexError,
        >(addr),
{
    let s = numeral(addr as nat, 16);
    numeral_value(addr as nat);
    assert(digit_value(s[0]) is Some);
    lower_prefix_is_optional(s);
    reveal_strlit("0x");
    reveal_strlit("0X");
    assert(trim_front(s) == s);
    assert(digit_value(s.last()) is Some);
    assert(trimmed(s) == s);
    assert(!"0x"@.is_prefix_of(s) && !"0X"@.is_prefix_of(s)) by {
        if s.len() >= 2 {
            assert(digit_value(s[1]) is Some);
            assert(s.subrange(0, 2)[1] == s[1]);
        }
    }
    assert(strip_all(s, "0x"@) == s);
    all_digits_run(s);
    assert(s.take(s.len() as int) =~= s);
}

/// White space around an address does not matter, and a text that starts and ends
/// without any and has no prefix is the digits of the address as it is.
pub proof fn address_digits_by_character(s: Seq<char>, c: char)
    ensures
        white_space(c) ==> address_digits(seq![c] + s) == address_digits(s),
        white_space(c) ==> address_digits(s.push(c)) == address_digits(s),
        s.len() > 0 && !white_space(s[0]) && !white_space(s[s.len() - 1]) && !(s.len() >= 2 && s[0]
            == '0' && (s[1] == 'x' || s[1] == 'X')) ==> address_digits(s) == s,
{
    reveal_strlit("0x");
    reveal_strlit("0X");
    trimming_by_character(s, c);
    if s.len() > 0 && !white_space(s[0]) && !white_space(s[s.len() - 1]) && !(s.len() >= 2 && s[0]
        == '0' && (s[1] == 'x' || s[1] == 'X')) {
        if s.len() >= 2 {
            assert(s.subrange(0, 2)[0] == s[0] && s.subrange(0, 2)[1] == s[1]);
        }
        assert(!"0x"@.is_prefix_of(s));
        assert(!"0X"@.is_prefix_of(s));
    }
}

/// An address that cannot be read is reported as it was given, with the reason.
pub proof fn bad_addresses_are_quoted(s: Seq<char>)
    ensures
        bad_address(s, HexError::Empty) == "bad hex address '"@ + s
            + "': cannot parse integer from empty string"@,
        bad_address(s, HexError::InvalidDigit) == "bad hex address '"@ + s
            + "': invalid digit found in string"@,
        bad_address(s, HexError::Overflow) == "bad hex address '"@ + s
            + "': number too large to fit in target type"@,
{
    reveal_strlit("': ");
    reveal_strlit("cannot parse integer from empty string");
    reveal_strlit("': cannot parse integer from empty string");
    reveal_strlit("invalid digit found in string");
    reveal_strlit("': invalid digit found in string");
    reveal_strlit("number too large to fit in target type");
    reveal_strlit("': number too large to fit in target type");
    assert("': "@ + "cannot parse integer from empty string"@
        =~= "': cannot parse integer from empty string"@);
    assert("': "@ + "invalid digit found in string"@ =~= "': invalid digit found in string"@);
    assert("': "@ + "number too large to fit in target type"@
        =~= "': number too large to fit in target type"@);
    assert(bad_address(s, HexError::Empty) =~= "bad hex address '"@ + s
        + "': cannot parse integer from empty string"@);
    assert(bad_address(s, HexError::InvalidDigit) =~= "bad hex address '"@ + s
        + "': invalid digit found in string"@);
    assert(bad_address(s, HexError::Overflow) =~= "bad hex address '"@ + s
        + "': number too large to fit in target type"@);
}

/// Only the six characters of `uint16` stand for elements of two bytes.
pub proof fn wide_type_by_letters(lower: Seq<char>)
    ensures
        type_is_wide(lower) <==> {
            &&& lower.len() == 6
            &&& lower[0] == 'u' && lower[1] == 'i' && lower[2] == 'n' && lower[3] == 't'
            &&& lower[4] == '1' && lower[5] == '6'
        },
{
    reveal_strlit("uint16");
    if lower.len() == 6 && lower[0] == 'u' && lower[1] == 'i' && lower[2] == 'n' && lower[3] == 't'
        && lower[4] == '1' && lower[5] == '6' {
        assert(lower =~= "uint16"@);
    }
}

/// The high byte comes first where no byte order is given, and where the three
/// letters of `big` are given in any case; with any other text it comes second.
pub proof fn byte_order_by_letters(endian: Option<String>)
    ensures
        endian is None ==> big_endian(endian),
        endian matches Some(e) ==> (big_endian(endian) <==> {
            &&& e@.len() == 3
            &&& e@[0] == 'b' || e@[0] == 'B'
            &&& e@[1] == 'i' || e@[1] == 'I'
            &&& e@[2] == 'g' || e@[2] == 'G'
        }),
{
    reveal_strlit("big");
    if let Some(e) = endian {
        let low = ascii_lowered(e@);
        if low == "big"@ {
            assert(low.len() == e@.len());
            assert("big"@.len() == 3);
            assert(low[0] == ascii_lower(e@[0]));
            assert(low[1] == ascii_lower(e@[1]));
            assert(low[2] == ascii_lower(e@[2]));
        }
        if e@.len() == 3 && (e@[0] == 'b' || e@[0] == 'B') && (e@[1] == 'i' || e@[1] == 'I') && (
        e@[2] == 'g' || e@[2] == 'G') {
            assert(low =~= "big"@);
        }
    }
}

/// A table has as many cells as columns times rows, where no columns and no rows
/// count as one.
pub proof fn cells_are_columns_times_rows(size_x: u32, size_y: u32)
    ensures
        size_x > 0 && size_y > 0 ==> cell_count(size_x, size_y) == size_x * size_y,
        size_x == 0 ==> cell_count(size_x, size_y) == cell_count(1, size_y),
        size_y == 0 ==> cell_count(size_x, size_y) == cell_count(size_x, 1),
{
}

/// As many values are read as the table has cells.
pub proof fn one_value_for_each_cell(bytes: Seq<u8>, t: TableShape, size_x: u32, size_y: u32)
    requires
        t.count == cell_count(size_x, size_y),
    ensures
        size_x > 0 && size_y > 0 ==> table_values(bytes, t).len() == size_x * size_y,
        size_x == 0 && size_y > 0 ==> table_values(bytes, t).len() == size_y,
        size_x > 0 && size_y == 0 ==> table_values(bytes, t).len() == size_x,
        size_x == 0 && size_y == 0 ==> table_values(bytes, t).len() == 1,
{
    assert(size_x * 1 == size_x) by (nonlinear_arith);
    assert(1 * size_y == size_y) by (nonlinear_arith);
}

/// A table ends one byte per element after its address, or two where its elements
/// are wide, and is well formed if that is an offset of 64 bits.
pub proof fn tables_end_after_their_elements(t: TableShape, i: int)
    ensures
        t.wide ==> t.at(i) == t.addr + 2 * i && t.size() == 2 * t.count,
        !t.wide ==> t.at(i) == t.addr + i && t.size() == t.count,
        t.end() == t.addr + t.size(),
        t.wf() <==> t.addr + t.size() < 0x1_0000_0000_0000_0000,
{
}

/// The table that a description gives starts at exactly the number that its
/// address stands for, and has the width, the byte order and the count of the
/// description. Where its end is no offset of 64 bits there is none, and where the
/// address does not read the description is refused for that reason.
pub proof fn description_is_taken_as_given(
    address: Seq<char>,
    wide: bool,
    endian: Option<String>,
    count: nat,
)
    ensures
        match hex_reading(address_digits(address)) {
            Ok(a) => if a + (if wide {
                2 * count
            } else {
                count
            }) < 0x1_0000_0000_0000_0000 {
                described(address, wide, endian, count) matches Ok(Some(t)) && t.addr == a && t.wide
                    == wide && t.big == big_endian(endian) && t.count == count
            } else {
                described(address, wide, endian, count) == Ok::<_, Seq<char>>(
                    None::<TableShape>,
                )
            },
            Err(e) => described(address, wide, endian, count) == Err::<Option<TableShape>, _>(
                bad_address(address, e),
            ),
        },
{
}

/// Every address can be written in hexadecimal, and the table that is described
/// by it starts at exactly that address.
pub proof fn described_table_starts_at_its_address(
    a: u64,
    wide: bool,
    endian: Option<String>,
    count: nat,
)
    requires
        a + (if wide {
            2 * count
        } else {
            count
        }) < 0x1_0000_0000_0000_0000,
    ensures
        described("0x"@ + numeral(a as nat, 16), wide, endian, count) matches Ok(Some(t)) && t.addr
            == a && t.wide == wide && t.big == big_endian(endian) && t.count == count,
        described(numeral(a as nat, 16), wide, endian, count) == described(
            "0x"@ + numeral(a as nat, 16),
            wide,
            endian,
            count,
        ),
{
    let s = numeral(a as nat, 16);
    shown_address_reads_back(a);
    numeral_value(a as nat);
    assert(digit_value(s[0]) is Some);
    lower_prefix_is_optional(s);
}

/// A write by address changes the bytes of its table and no other: value `i` goes
/// to byte `a + i`, or, in two bytes of the given order, to byte `a + 2 * i`. A
/// byte `p` outside stays as it was.
pub proof fn write_goes_to_its_address(
    a: u64,
    wide: bool,
    endian: Option<String>,
    bytes: Seq<u8>,
    values: Seq<u32>,
    i: int,
    p: int,
)
    requires
        a + (if wide {
            2 * values.len()
        } else {
            values.len()
        }) <= bytes.len() < 0x1_0000_0000_0000_0000,
        0 <= i < values.len(),
        0 <= p < bytes.len(),
    ensures
        described("0x"@ + numeral(a as nat, 16), wide, endian, values.len()) matches Ok(Some(t)) && {
            let after = with_table(bytes, t, values);
            let v = values[i] as int;
            &&& after.len() == bytes.len()
            &&& p < a || p >= a + (if wide {
                2 * values.len()
            } else {
                values.len()
            }) ==> after[p] == bytes[p]
            &&& !wide ==> after[a + i] == v % 256
            &&& wide && big_endian(endian) ==> after[a + 2 * i] == v / 256 % 256 && after[a + 2 * i
                + 1] == v % 256
            &&& wide && !big_endian(endian) ==> after[a + 2 * i] == v % 256 && after[a + 2 * i + 1]
                == v / 256 % 256
        },
{
    described_table_starts_at_its_address(a, wide, endian, values.len());
}

/// A read by address gives, as value `i`, byte `a + i`, or the two bytes from
/// `a + 2 * i` on in the given order.
pub proof fn read_comes_from_its_address(
    a: u64,
    wide: bool,
    endian: Option<String>,
    bytes: Seq<u8>,
    count: nat,
    i: int,
)
    requires
        a + (if wide {
            2 * count
        } else {
            count
        }) <= bytes.len() < 0x1_0000_0000_0000_0000,
        0 <= i < count,
    ensures
        described("0x"@ + numeral(a as nat, 16), wide, endian, count) matches Ok(Some(t)) && {
            let read = table_values(bytes, t);
            &&& read.len() == count
            &&& !wide ==> read[i] == bytes[a + i]
            &&& wide && big_endian(endian) ==> read[i] == bytes[a + 2 * i] * 256 + bytes[a + 2 * i
                + 1]
            &&& wide && !big_endian(endian) ==> read[i] == bytes[a + 2 * i] + bytes[a + 2 * i + 1]
                * 256
        },
{
    described_table_starts_at_its_address(a, wide, endian, count);
}

/// What an element keeps of a value is the rest by 256, or by 65536 where it is
/// wide.
pub proof fn kept_part_is_the_rest(t: TableShape, v: u32)
    ensures
        kept_part(t, v) as int == v as int % (if t.wide {
            65536int
        } else {
            256int
        }),
{
}

/// A layout that was asked for is the table of the description, or the refusal of
/// it.
pub proof fn layouts_are_as_described(
    r: Result<Option<TableLayout>, String>,
    d: Result<Option<TableShape>, Seq<char>>,
)
    requires
        layout_is(r, d),
    ensures
        d matches Ok(Some(t)) ==> (r matches Ok(Some(l)) && l@ == t),
        d == Ok::<_, Seq<char>>(None::<TableShape>) ==> (r matches Ok(None)),
        d matches Err(e) ==> (r matches Err(m) && m@ == e),
{
}

/// A patch that was asked for holds the table of the description and the values
/// that were given, or is the refusal of the description.
pub proof fn patches_are_as_described(
    r: Result<Option<TablePatch>, String>,
    d: Result<Option<TableShape>, Seq<char>>,
    values: Seq<u32>,
)
    requires
        patch_is(r, d, values),
    ensures
        d matches Ok(Some(t)) ==> (r matches Ok(Some(p)) && p.shape() == t && p.values() == values),
        d == Ok::<_, Seq<char>>(None::<TableShape>) ==> (r matches Ok(None)),
        d matches Err(e) ==> (r matches Err(m) && m@ == e),
{
}

/// A table that runs past the end of the image is reported with its address in
/// hexadecimal, and its size and that of the image in decimal.
pub proof fn past_end_tells_the_numbers(what: Seq<char>, t: TableShape, len: nat)
    ensures
        past_end(what, t, len) == what + " at 0x"@ + numeral(t.addr, 16) + " ("@ + numeral(
            if t.wide {
                2 * t.count
            } else {
                t.count
            },
            10,
        ) + " bytes) runs past end of ROM ("@ + numeral(len, 10) + " bytes)"@,
{
}

/// A write is reported with the count of its values in decimal, its address in
/// hexadecimal, and the file.
pub proof fn write_notice_tells_the_numbers(t: TableShape, rom_path: Seq<char>)
    ensures
        write_notice(t, rom_path) == "wrote "@ + numeral(t.count, 10) + " value(s) at 0x"@
            + numeral(t.addr, 16) + " in "@ + rom_path,
{
}

/// Only prefixes go from the front of an address, and only in their order: what
/// follows a prefix stays as it is, white space too, unless it is a prefix itself;
/// and a `0x` behind a `0X` stays.
pub proof fn only_prefixes_go(s: Seq<char>)
    requires
        s.len() > 0,
        !white_space(s[s.len() - 1]),
    ensures
        !(s.len() >= 2 && s[0] == '0' && (s[1] == 'x' || s[1] == 'X')) ==> address_digits(
            seq!['0', 'x'] + s,
        ) == s,
        !(s.len() >= 2 && s[0] == '0' && s[1] == 'X') ==> address_digits(seq!['0', 'X'] + s) == s,
{
    reveal_strlit("0x");
    reveal_strlit("0X");
    assert(seq!['0', 'x'] =~= "0x"@);
    assert(seq!['0', 'X'] =~= "0X"@);
    let lower = "0x"@ + s;
    let upper = "0X"@ + s;
    trimming_by_character(lower, ' ');
    trimming_by_character(upper, ' ');
    assert(lower.subrange(0, 2) =~= "0x"@);
    assert(upper.subrange(0, 2) =~= "0X"@);
    assert(lower.skip(2) =~= s);
    assert(upper.skip(2) =~= s);
    assert("0x"@[1] != "0X"@[1]);
    assert(!"0x"@.is_prefix_of(upper));
    if s.len() >= 2 {
        assert(s.subrange(0, 2)[0] == s[0] && s.subrange(0, 2)[1] == s[1]);
    }
    if !(s.len() >= 2 && s[0] == '0' && s[1] == 'X') {
        assert(!"0X"@.is_prefix_of(s));
        assert(strip_all(upper, "0x"@) == upper);
        assert(strip_all(upper, "0X"@) == strip_all(s, "0X"@));
    }
    if !(s.len() >= 2 && s[0] == '0' && (s[1] == 'x' || s[1] == 'X')) {
        assert(!"0x"@.is_prefix_of(s));
        assert(strip_all(lower, "0x"@) == strip_all(s, "0x"@));
    }
}

} // verus!
