//! Calibration tables inside a ROM image: where a table lies, its values read
//! from the image, and new values put into it.
//!
//! A table is a run of unsigned elements of one or two bytes at a byte offset
//! into the image. Two-byte elements are stored in either byte order.
use vstd::prelude::*;
use vstd::utf8::is_ascii_chars;

use crate::numeral::{decimal, hex_reading, hexadecimal, numeral, parse_hex, HexError};
use crate::text::{ascii_lowered, same_ignoring_ascii_case, same_text, strip_all, strip_prefixes};
use crate::text::{trim, trimmed};
use crate::unicode::{lowercase, to_lowercase};

verus! {

/// The digits of an address: what is left of the trimmed text after leading
/// `0x`s, and then leading `0X`s.
pub open spec fn address_digits(s: Seq<char>) -> Seq<char> {
    strip_all(strip_all(trimmed(s), "0x"@), "0X"@)
}

/// The report on an address that cannot be read.
pub open spec fn bad_address(s: Seq<char>, e: HexError) -> Seq<char> {
    "bad hex address '"@ + s + "': "@ + e.wording()
}

/// Reads a hexadecimal address such as `1A2B3C` or `0x1A2B3C`, which is a byte
/// offset into the ROM image.
pub fn parse_hex_addr(s: &str) -> (r: Result<u64, String>)
    ensures
        match hex_reading(address_digits(s@)) {
            Ok(a) => r == Ok::<u64, String>(a),
            Err(e) => r matches Err(m) && m@ == bad_address(s@, e),
        },
{
    proof {
        reveal_strlit("0x");
        reveal_strlit("0X");
    }
    let lower: String = strip_prefixes(trim(s).as_str(), "0x");
    let digits: String = strip_prefixes(lower.as_str(), "0X");
    match parse_hex(digits.as_str()) {
        Ok(a) => Ok(a),
        Err(e) => {
            let mut m: String = "bad hex address '".to_owned();
            m.append(s);
            m.append("': ");
            m.append(e.message().as_str());
            Err(m)
        },
    }
}

/// A storage type, in lower case, has elements of two bytes.
pub open spec fn type_is_wide(lower: Seq<char>) -> bool {
    lower == "uint16"@
}

/// Whether a storage type, given in lower case, has two-byte elements. Only
/// `uint16` has; any other type has elements of one byte.
pub fn is_wide(lower: &str) -> (r: bool)
    ensures
        r == type_is_wide(lower@),
{
    same_text(lower, "uint16")
}

/// Whether a storage type has two-byte elements, whatever its letter case.
pub fn stores_wide(storagetype: &str) -> (r: bool)
    ensures
        r == type_is_wide(lowercase(storagetype@)),
        is_ascii_chars(storagetype@) ==> r == type_is_wide(ascii_lowered(storagetype@)),
{
    is_wide(to_lowercase(storagetype).as_str())
}

/// The byte order that a table is stored in: big endian unless another order
/// is named.
pub open spec fn big_endian(endian: Option<String>) -> bool {
    match endian {
        Some(e) => ascii_lowered(e@) == "big"@,
        None => true,
    }
}

/// Whether a table is stored with the high byte first. It is when no byte
/// order is given, and when the order is `big` in any letter case.
pub fn is_big_endian(endian: Option<String>) -> (r: bool)
    ensures
        r == big_endian(endian),
{
    match endian {
        Some(e) => {
            proof {
                reveal_strlit("big");
                assert(ascii_lowered("big"@) =~= "big"@);
            }
            same_ignoring_ascii_case(e.as_str(), "big")
        },
        None => true,
    }
}

/// Where and how a table is stored: `count` elements from byte `addr` on, of
/// two bytes each if `wide` and of one byte otherwise, the high byte first if
/// `big`.
pub ghost struct TableShape {
    pub addr: nat,
    pub wide: bool,
    pub big: bool,
    pub count: nat,
}

impl TableShape {
    /// The bytes that `n` elements take.
    pub open spec fn width(self, n: int) -> int {
        if self.wide {
            2 * n
        } else {
            n
        }
    }

    /// The offset of element `i`.
    pub open spec fn at(self, i: int) -> int {
        self.addr + self.width(i)
    }

    /// The bytes that the table takes.
    pub open spec fn size(self) -> nat {
        self.width(self.count as int) as nat
    }

    /// The offset of the first byte after the table.
    pub open spec fn end(self) -> nat {
        self.addr + self.size()
    }

    /// The end of the table is an offset of 64 bits.
    pub open spec fn wf(self) -> bool {
        self.end() <= u64::MAX
    }
}

/// The value of the element stored at byte `at`.
pub open spec fn element(bytes: Seq<u8>, at: int, wide: bool, big: bool) -> nat {
    if !wide {
        bytes[at] as nat
    } else if big {
        bytes[at] as nat * 256 + bytes[at + 1] as nat
    } else {
        bytes[at] as nat + bytes[at + 1] as nat * 256
    }
}

/// The values of a table, in the order in which they are stored.
pub open spec fn table_values(bytes: Seq<u8>, t: TableShape) -> Seq<u32> {
    Seq::new(t.count, |i: int| element(bytes, t.at(i), t.wide, t.big) as u32)
}

/// The low eight bits of `v`.
pub open spec fn low_byte(v: u32) -> u8 {
    (v as int % 256) as u8
}

/// The eight bits of `v` above the low ones.
pub open spec fn high_byte(v: u32) -> u8 {
    (v as int / 256 % 256) as u8
}

/// What byte `p` of the image holds once `values` are stored in the table, for
/// a byte inside the table. Bits of a value that its element has no room for
/// are left out.
pub open spec fn stored_byte(t: TableShape, values: Seq<u32>, p: int) -> u8 {
    let d = p - t.addr;
    if !t.wide {
        low_byte(values[d])
    } else if (d % 2 == 0) == t.big {
        high_byte(values[d / 2])
    } else {
        low_byte(values[d / 2])
    }
}

/// The image with the first `n` of `values` stored in the table.
pub open spec fn with_first(bytes: Seq<u8>, t: TableShape, values: Seq<u32>, n: int) -> Seq<u8> {
    Seq::new(
        bytes.len(),
        |p: int|
            if t.addr <= p < t.at(n) {
                stored_byte(t, values, p)
            } else {
                bytes[p]
            },
    )
}

/// The image with `values` stored in the table and every other byte as it was.
pub open spec fn with_table(bytes: Seq<u8>, t: TableShape, values: Seq<u32>) -> Seq<u8> {
    with_first(bytes, t, values, t.count as int)
}

/// How many elements a table of `size_x` columns and `size_y` rows has. A size
/// of zero counts as one.
pub open spec fn cell_count(size_x: u32, size_y: u32) -> nat {
    let nx: nat = if size_x == 0 { 1 } else { size_x as nat };
    let ny: nat = if size_y == 0 { 1 } else { size_y as nat };
    nx * ny
}

/// The shape of a table as its description gives it: an error where the
/// address cannot be read, and nothing where the end of the table is no offset
/// of 64 bits.
pub open spec fn described(
    address: Seq<char>,
    wide: bool,
    endian: Option<String>,
    count: nat,
) -> Result<Option<TableShape>, Seq<char>> {
    match hex_reading(address_digits(address)) {
        Err(e) => Err(bad_address(address, e)),
        Ok(a) => {
            let t = TableShape { addr: a as nat, wide, big: big_endian(endian), count };
            Ok(
                if t.wf() {
                    Some(t)
                } else {
                    None
                },
            )
        },
    }
}

/// The place of a table in a ROM image.
pub struct TableLayout {
    addr: u64,
    wide: bool,
    big: bool,
    count: u64,
}

impl View for TableLayout {
    type V = TableShape;

    closed spec fn view(&self) -> TableShape {
        TableShape {
            addr: self.addr as nat,
            wide: self.wide,
            big: self.big,
            count: self.count as nat,
        }
    }
}

impl TableLayout {
    #[verifier::type_invariant]
    spec fn ends_in_range(self) -> bool {
        self@.wf()
    }

    /// The layout of a table of `count` elements at `addr`, or nothing where
    /// its end is no offset of 64 bits.
    pub fn new(addr: u64, wide: bool, big: bool, count: u64) -> (r: Option<TableLayout>)
        ensures
            ({
                let t = TableShape { addr: addr as nat, wide, big, count: count as nat };
                match r {
                    Some(l) => l@ == t && t.wf(),
                    None => !t.wf(),
                }
            }),
    {
        if wide && count > u64::MAX / 2 {
            return None;
        }
        let size: u64 = if wide { count * 2 } else { count };
        if size > u64::MAX - addr {
            return None;
        }
        Some(TableLayout { addr, wide, big, count })
    }

    /// The bytes that the table takes.
    fn size(&self) -> (r: u64)
        ensures
            r == self@.size(),
            self@.wf(),
            self@.addr == self.addr,
            self@.count == self.count,
            self@.wide == self.wide,
            self@.big == self.big,
    {
        proof {
            use_type_invariant(self);
        }
        if self.wide {
            self.count * 2
        } else {
            self.count
        }
    }
}

/// A layout that was asked for, held against the description `d`.
pub open spec fn layout_is(
    r: Result<Option<TableLayout>, String>,
    d: Result<Option<TableShape>, Seq<char>>,
) -> bool {
    match (r, d) {
        (Ok(Some(l)), Ok(Some(t))) => l@ == t && t.wf(),
        (Ok(None), Ok(None)) => true,
        (Err(m), Err(e)) => m@ == e,
        _ => false,
    }
}

/// The layout of `count` elements whose width is known.
fn layout_of(address: &str, wide: bool, endian: Option<String>, count: u64) -> (r: Result<
    Option<TableLayout>,
    String,
>)
    ensures
        layout_is(r, described(address@, wide, endian, count as nat)),
{
    match parse_hex_addr(address) {
        Ok(addr) => {
            let big: bool = is_big_endian(endian);
            Ok(TableLayout::new(addr, wide, big, count))
        },
        Err(m) => Err(m),
    }
}

/// The layout of a table of `size_x` columns and `size_y` rows with elements of
/// the given width.
pub fn sized_layout(
    address: &str,
    wide: bool,
    size_x: u32,
    size_y: u32,
    endian: Option<String>,
) -> (r: Result<Option<TableLayout>, String>)
    ensures
        layout_is(r, described(address@, wide, endian, cell_count(size_x, size_y))),
{
    let nx: u64 = if size_x == 0 { 1 } else { size_x as u64 };
    let ny: u64 = if size_y == 0 { 1 } else { size_y as u64 };
    assert(nx * ny <= u64::MAX) by (nonlinear_arith)
        requires
            nx <= 0xFFFF_FFFF,
            ny <= 0xFFFF_FFFF,
    ;
    layout_of(address, wide, endian, nx * ny)
}

/// The layout of a table as the XML definition describes it: its address in
/// hexadecimal, its storage type, its columns and rows, and its byte order.
///
/// There is no layout where the end of the table is no offset of 64 bits.
pub fn table_layout(
    address: &str,
    storagetype: &str,
    size_x: u32,
    size_y: u32,
    endian: Option<String>,
) -> (r: Result<Option<TableLayout>, String>)
    ensures
        layout_is(
            r,
            described(
                address@,
                type_is_wide(lowercase(storagetype@)),
                endian,
                cell_count(size_x, size_y),
            ),
        ),
        is_ascii_chars(storagetype@) ==> layout_is(
            r,
            described(
                address@,
                type_is_wide(ascii_lowered(storagetype@)),
                endian,
                cell_count(size_x, size_y),
            ),
        ),
{
    sized_layout(address, stores_wide(storagetype), size_x, size_y, endian)
}

/// The report on a table that does not lie inside an image of `len` bytes.
pub open spec fn past_end(what: Seq<char>, t: TableShape, len: nat) -> Seq<char> {
    what + " at 0x"@ + numeral(t.addr, 16) + " ("@ + numeral(t.size(), 10)
        + " bytes) runs past end of ROM ("@ + numeral(len, 10) + " bytes)"@
}

/// The report on a table that does not lie inside the image.
fn past_end_message(what: &str, layout: &TableLayout, len: usize) -> (r: String)
    ensures
        r@ == past_end(what@, layout@, len as nat),
{
    let size: u64 = layout.size();
    let mut m: String = what.to_owned();
    m.append(" at 0x");
    m.append(hexadecimal(layout.addr).as_str());
    m.append(" (");
    m.append(decimal(size).as_str());
    m.append(" bytes) runs past end of ROM (");
    m.append(decimal(len as u64).as_str());
    m.append(" bytes)");
    m
}

/// The values of a table in the ROM image `bytes`, or a report where the table
/// runs past the end of the image.
pub fn read_table(bytes: &[u8], layout: &TableLayout) -> (r: Result<Vec<u32>, String>)
    ensures
        layout@.wf(),
        layout@.end() <= bytes@.len() ==> (r matches Ok(v) && v@ == table_values(bytes@, layout@)),
        layout@.end() > bytes@.len() ==> (r matches Err(m) && m@ == past_end(
            "table"@,
            layout@,
            bytes@.len(),
        )),
{
    let size: u64 = layout.size();
    if layout.addr + size > bytes.len() as u64 {
        return Err(past_end_message("table", layout, bytes.len()));
    }
    let first: usize = layout.addr as usize;
    let count: usize = layout.count as usize;
    let mut out: Vec<u32> = Vec::new();
    let mut i: usize = 0;
    while i < count
        invariant
            i <= count,
            layout@.wf(),
            layout@.addr == layout.addr,
            layout@.count == layout.count,
            layout@.wide == layout.wide,
            layout@.big == layout.big,
            first == layout.addr,
            count == layout.count,
            layout@.end() <= bytes.len(),
            out@ == table_values(bytes@, layout@).take(i as int),
        decreases count - i,
    {
        let v: u32 = if !layout.wide {
            bytes[first + i] as u32
        } else {
            let a: usize = first + 2 * i;
            if layout.big {
                bytes[a] as u32 * 256 + bytes[a + 1] as u32
            } else {
                bytes[a] as u32 + bytes[a + 1] as u32 * 256
            }
        };
        proof {
            let all = table_values(bytes@, layout@);
            assert(v == all[i as int]);
            assert(all.take(i + 1) =~= all.take(i as int).push(v));
        }
        out.push(v);
        i += 1;
    }
    assert(table_values(bytes@, layout@).take(count as int) =~= table_values(bytes@, layout@));
    Ok(out)
}

/// Values together with the table that they are to be stored in.
pub struct TablePatch {
    layout: TableLayout,
    values: Vec<u32>,
}

impl TablePatch {
    /// The table that the values go to.
    pub closed spec fn shape(self) -> TableShape {
        self.layout@
    }

    /// The values.
    pub closed spec fn values(self) -> Seq<u32> {
        self.values@
    }

    #[verifier::type_invariant]
    spec fn fills_table(self) -> bool {
        self.layout@.wf() && self.layout@.count == self.values@.len()
    }
}

/// A patch that was asked for, held against the description `d` of its table.
pub open spec fn patch_is(
    r: Result<Option<TablePatch>, String>,
    d: Result<Option<TableShape>, Seq<char>>,
    values: Seq<u32>,
) -> bool {
    match (r, d) {
        (Ok(Some(p)), Ok(Some(t))) => p.shape() == t && t.wf() && p.values() == values,
        (Ok(None), Ok(None)) => true,
        (Err(m), Err(e)) => m@ == e,
        _ => false,
    }
}

/// The patch that stores `values` at an address, with elements of the given
/// width.
pub fn sized_patch(
    address: &str,
    wide: bool,
    endian: Option<String>,
    values: Vec<u32>,
) -> (r: Result<Option<TablePatch>, String>)
    ensures
        patch_is(r, described(address@, wide, endian, values@.len()), values@),
{
    match layout_of(address, wide, endian, values.len() as u64) {
        Ok(Some(layout)) => Ok(Some(TablePatch { layout, values })),
        Ok(None) => Ok(None),
        Err(m) => Err(m),
    }
}

/// The patch that stores `values` in the table at an address, by the same rules
/// on address, storage type and byte order as `table_layout`.
///
/// There is no patch where the end of the table is no offset of 64 bits.
pub fn table_patch(
    address: &str,
    storagetype: &str,
    endian: Option<String>,
    values: Vec<u32>,
) -> (r: Result<Option<TablePatch>, String>)
    ensures
        patch_is(
            r,
            described(address@, type_is_wide(lowercase(storagetype@)), endian, values@.len()),
            values@,
        ),
        is_ascii_chars(storagetype@) ==> patch_is(
            r,
            described(address@, type_is_wide(ascii_lowered(storagetype@)), endian, values@.len()),
            values@,
        ),
{
    sized_patch(address, stores_wide(storagetype), endian, values)
}

/// Stores the values of `patch` in the ROM image `bytes`. Where the table runs
/// past the end of the image, the image stays as it is and the result is a
/// report.
pub fn write_table(bytes: &mut Vec<u8>, patch: &TablePatch) -> (r: Result<(), String>)
    ensures
        patch.shape().wf(),
        patch.shape().count == patch.values().len(),
        patch.shape().end() <= old(bytes)@.len() ==> r is Ok && final(bytes)@ == with_table(
            old(bytes)@,
            patch.shape(),
            patch.values(),
        ),
        patch.shape().end() > old(bytes)@.len() ==> (r matches Err(m) && m@ == past_end(
            "write"@,
            patch.shape(),
            old(bytes)@.len(),
        )) && final(bytes)@ == old(bytes)@,
{
    proof {
        use_type_invariant(patch);
    }
    let layout: &TableLayout = &patch.layout;
    let size: u64 = layout.size();
    if layout.addr + size > bytes.len() as u64 {
        return Err(past_end_message("write", layout, bytes.len()));
    }
    let first: usize = layout.addr as usize;
    let count: usize = patch.values.len();
    let ghost before = bytes@;
    let ghost t = patch.shape();
    let ghost values = patch.values();
    assert(before == with_first(before, t, values, 0));
    let mut i: usize = 0;
    while i < count
        invariant
            i <= count,
            t == layout@,
            t.wf(),
            t.addr == layout.addr,
            t.wide == layout.wide,
            t.big == layout.big,
            t.count == count,
            values == patch.values@,
            count == values.len(),
            first == layout.addr,
            bytes@.len() == before.len(),
            t.end() <= bytes.len(),
            bytes@ == with_first(before, t, values, i as int),
        decreases count - i,
    {
        let v: u32 = patch.values[i];
        let low: u8 = (v % 256) as u8;
        let high: u8 = (v / 256 % 256) as u8;
        if !layout.wide {
            bytes.set(first + i, low);
        } else {
            let a: usize = first + 2 * i;
            if layout.big {
                bytes.set(a, high);
                bytes.set(a + 1, low);
            } else {
                bytes.set(a, low);
                bytes.set(a + 1, high);
            }
        }
        assert(bytes@ =~= with_first(before, t, values, i + 1));
        i += 1;
    }
    Ok(())
}

/// The report on values that were stored in the image at `rom_path`.
pub open spec fn write_notice(t: TableShape, rom_path: Seq<char>) -> Seq<char> {
    "wrote "@ + numeral(t.count, 10) + " value(s) at 0x"@ + numeral(t.addr, 16) + " in "@ + rom_path
}

/// The report on values that were stored in the image at `rom_path`.
pub fn write_report(patch: &TablePatch, rom_path: &str) -> (r: String)
    ensures
        r@ == write_notice(patch.shape(), rom_path@),
{
    let mut m: String = "wrote ".to_owned();
    m.append(decimal(patch.layout.count).as_str());
    m.append(" value(s) at 0x");
    m.append(hexadecimal(patch.layout.addr).as_str());
    m.append(" in ");
    m.append(rom_path);
    m
}

} // verus!
