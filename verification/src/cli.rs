//! What the command line tool computes: hexadecimal input, hexadecimal dumps, and the choice of a
//! device by name or address.
use vstd::prelude::*;
use vstd::string::*;

use crate::ble::DeviceInfo;
use crate::text::{
    hex_char, hex_digits, hex_padded, hex_value, law_hex_digits_read_back, push_hex_digits,
    push_hex_padded, push_spaces, spaces, text_of,
};

verus! {

// ---------- Hexadecimal input ----------
/// Why a text is not a sequence of bytes in hexadecimal.
#[derive(Debug, Clone, Copy, PartialEq, Eq, Structural)]
pub enum HexError {
    OddLength,
    InvalidDigit,
}

impl HexError {
    /// The text of the error.
    pub open spec fn message(&self) -> Seq<char> {
        match self {
            HexError::OddLength => "hex string has odd length"@,
            HexError::InvalidDigit => "invalid digit found in string"@,
        }
    }

    /// The text of the error.
    pub fn to_string(&self) -> (r: String)
        ensures
            r@ == self.message(),
    {
        match self {
            HexError::OddLength => text_of("hex string has odd length"),
            HexError::InvalidDigit => text_of("invalid digit found in string"),
        }
    }
}

/// A text without its spaces.
pub open spec fn without_spaces(text: Seq<u8>) -> Seq<u8>
    decreases text.len(),
{
    if text.len() == 0 {
        Seq::empty()
    } else if text.last() == 0x20 {
        without_spaces(text.drop_last())
    } else {
        without_spaces(text.drop_last()).push(text.last())
    }
}

/// The value of a hexadecimal digit, in either case.
pub open spec fn hex_digit_value(c: u8) -> Option<nat> {
    if 0x30 <= c <= 0x39 {
        Some((c - 0x30) as nat)
    } else if 0x41 <= c <= 0x46 {
        Some((c - 0x41 + 10) as nat)
    } else if 0x61 <= c <= 0x66 {
        Some((c - 0x61 + 10) as nat)
    } else {
        None
    }
}

/// The value of two characters: two digits, or a plus sign and a digit.
pub open spec fn hex_pair_value(high: u8, low: u8) -> Option<u8> {
    match hex_digit_value(low) {
        None => None,
        Some(l) => if high == 0x2B {
            Some(l as u8)
        } else {
            match hex_digit_value(high) {
                None => None,
                Some(h) => Some((16 * h + l) as u8),
            }
        },
    }
}

/// The value of pair `k`.
pub open spec fn hex_pair_at(digits: Seq<u8>, k: int) -> Option<u8> {
    hex_pair_value(digits[2 * k], digits[2 * k + 1])
}

/// The bytes that a text stands for, spaces left aside.
pub open spec fn hex_bytes(text: Seq<u8>) -> Result<Seq<u8>, HexError> {
    let digits = without_spaces(text);
    if digits.len() % 2 != 0 {
        Err(HexError::OddLength)
    } else if exists|k: int|
        0 <= k < digits.len() / 2 && (#[trigger] hex_pair_at(digits, k)) is None {
        Err(HexError::InvalidDigit)
    } else {
        Ok(Seq::new(digits.len() / 2, |k: int| hex_pair_at(digits, k)->0))
    }
}

/// Whether a character of a UTF-8 text starts, or the text ends, at place `i`.
pub open spec fn starts_char(digits: Seq<u8>, i: int) -> bool {
    i >= digits.len() || !(0x80 <= digits[i] < 0xC0)
}

/// Whether the pairs from pair `k` on, up to and with the first that has no value, hold whole
/// characters.
pub open spec fn pairs_whole_from(digits: Seq<u8>, k: nat) -> bool
    decreases digits.len() - k,
{
    if 2 * k >= digits.len() {
        true
    } else {
        &&& starts_char(digits, (2 * k + 2) as int)
        &&& hex_pair_at(digits, k as int) is Some ==> pairs_whole_from(digits, k + 1)
    }
}

/// Whether a text can be taken apart into pairs: either it is refused for its length, or no pair
/// that is looked at cuts a character in two.
pub open spec fn hex_can_split(text: Seq<u8>) -> bool {
    without_spaces(text).len() % 2 == 0 ==> pairs_whole_from(without_spaces(text), 0)
}

fn strip_spaces(text: &[u8]) -> (r: Vec<u8>)
    ensures
        r@ == without_spaces(text@),
{
    let mut out: Vec<u8> = Vec::new();
    let mut i: usize = 0;
    assert(text@.take(0) =~= Seq::<u8>::empty());
    while i < text.len()
        invariant
            i <= text@.len(),
            out@ == without_spaces(text@.take(i as int)),
        decreases text@.len() - i,
    {
        assert(text@.take(i + 1).drop_last() =~= text@.take(i as int));
        if text[i] != 0x20 {
            out.push(text[i]);
        }
        i += 1;
    }
    assert(text@.take(text@.len() as int) =~= text@);
    out
}

fn read_hex_digit(c: u8) -> (r: Option<u8>)
    ensures
        match r {
            Some(v) => v < 16 && hex_digit_value(c) == Some(v as nat),
            None => hex_digit_value(c) is None,
        },
{
    if 0x30 <= c && c <= 0x39 {
        Some(c - 0x30)
    } else if 0x41 <= c && c <= 0x46 {
        Some(c - 0x41 + 10)
    } else if 0x61 <= c && c <= 0x66 {
        Some(c - 0x61 + 10)
    } else {
        None
    }
}

fn read_hex_pair(high: u8, low: u8) -> (r: Option<u8>)
    ensures
        r == hex_pair_value(high, low),
{
    match read_hex_digit(low) {
        None => None,
        Some(l) => if high == 0x2B {
            Some(l)
        } else {
            match read_hex_digit(high) {
                None => None,
                Some(h) => Some(16 * h + l),
            }
        },
    }
}

/// Whether a text can be taken apart into pairs of characters.
pub fn hex_splits(text: &str) -> (r: bool)
    ensures
        r == hex_can_split(text.spec_bytes()),
{
    let digits: Vec<u8> = strip_spaces(text.as_bytes());
    if digits.len() % 2 != 0 {
        return true;
    }
    let mut i: usize = 0;
    while i < digits.len()
        invariant
            digits@ == without_spaces(text.spec_bytes()),
            digits@.len() % 2 == 0,
            i % 2 == 0,
            i <= digits@.len(),
            hex_can_split(text.spec_bytes()) == pairs_whole_from(digits@, (i / 2) as nat),
        decreases digits@.len() - i,
    {
        assert(2 * (i as nat / 2) == i);
        if digits.len() - i > 2 && 0x80 <= digits[i + 2] && digits[i + 2] < 0xC0 {
            return false;
        }
        if read_hex_pair(digits[i], digits[i + 1]).is_none() {
            return true;
        }
        i += 2;
    }
    true
}

/// Reads bytes in hexadecimal. Spaces are left aside.
pub fn parse_hex(hex: &str) -> (r: Result<Vec<u8>, HexError>)
    requires
        hex_can_split(hex.spec_bytes()),
    ensures
        match r {
            Ok(bytes) => hex_bytes(hex.spec_bytes()) == Ok::<Seq<u8>, HexError>(bytes@),
            Err(e) => hex_bytes(hex.spec_bytes()) == Err::<Seq<u8>, HexError>(e),
        },
{
    let digits: Vec<u8> = strip_spaces(hex.as_bytes());
    if digits.len() % 2 != 0 {
        return Err(HexError::OddLength);
    }
    let mut out: Vec<u8> = Vec::new();
    let mut i: usize = 0;
    while i < digits.len()
        invariant
            digits@ == without_spaces(hex.spec_bytes()),
            digits@.len() % 2 == 0,
            i <= digits@.len(),
            i == 2 * out@.len(),
            forall|k: int|
                0 <= k < out@.len() ==> #[trigger] hex_pair_at(digits@, k) == Some(out@[k]),
        decreases digits@.len() - i,
    {
        let ghost k: int = out@.len() as int;
        match read_hex_pair(digits[i], digits[i + 1]) {
            None => {
                assert(hex_pair_at(digits@, k) is None);
                return Err(HexError::InvalidDigit);
            },
            Some(byte) => {
                assert(hex_pair_at(digits@, k) == Some(byte));
                out.push(byte);
            },
        }
        i += 2;
    }
    assert(out@ =~= Seq::new(digits@.len() / 2, |k: int| hex_pair_at(digits@, k)->0));
    Ok(out)
}

// ---------- Hexadecimal dumps ----------
/// How a byte is shown: as itself where it is a printable ASCII character, and as a dot otherwise.
pub open spec fn shown_char(b: u8) -> char {
    if 0x20 <= b <= 0x7E {
        b as char
    } else {
        '.'
    }
}

/// Bytes in hexadecimal with spaces between them.
pub open spec fn spaced_hex(data: Seq<u8>) -> Seq<char>
    decreases data.len(),
{
    if data.len() == 0 {
        Seq::empty()
    } else if data.len() == 1 {
        hex_digits(data[0] as nat, 2)
    } else {
        spaced_hex(data.drop_last()) + seq![' '] + hex_digits(data.last() as nat, 2)
    }
}

/// A line of a dump: the offset, the bytes in hexadecimal in a column of 48 characters, and the
/// bytes as characters.
pub open spec fn dump_line(offset: nat, chunk: Seq<u8>) -> Seq<char> {
    "  "@ + hex_padded(offset, 4) + "  "@ + spaced_hex(chunk) + spaces(
        (48 - spaced_hex(chunk).len()) as nat,
    ) + "  "@ + chunk.map_values(|b: u8| shown_char(b))
}

/// Where line `i` of a dump ends.
pub open spec fn dump_line_end(len: nat, i: nat) -> nat {
    if 16 * i + 16 <= len {
        16 * i + 16
    } else {
        len
    }
}

/// The lines of a dump, sixteen bytes each.
pub open spec fn dump_lines(data: Seq<u8>) -> Seq<Seq<char>> {
    Seq::new(
        (data.len() + 15) / 16,
        |i: int|
            dump_line(
                (16 * i) as nat,
                data.subrange(16 * i, dump_line_end(data.len(), i as nat) as int),
            ),
    )
}

proof fn lemma_hex_digits_len(n: nat, width: nat)
    ensures
        hex_digits(n, width).len() == width,
    decreases width,
{
    if width > 0 {
        lemma_hex_digits_len(n / 16, (width - 1) as nat);
    }
}

proof fn lemma_spaced_hex_len(data: Seq<u8>)
    ensures
        spaced_hex(data).len() == (if data.len() == 0 {
            0
        } else {
            3 * data.len() - 1
        }),
    decreases data.len(),
{
    if data.len() == 1 {
        lemma_hex_digits_len(data[0] as nat, 2);
    } else if data.len() > 1 {
        lemma_spaced_hex_len(data.drop_last());
        lemma_hex_digits_len(data.last() as nat, 2);
    }
}

fn push_spaced_hex(out: &mut String, chunk: &[u8])
    ensures
        final(out)@ == old(out)@ + spaced_hex(chunk@),
{
    let ghost before = out@;
    let mut i: usize = 0;
    assert(out@ =~= before + spaced_hex(chunk@.take(0)));
    while i < chunk.len()
        invariant
            i <= chunk@.len(),
            out@ == before + spaced_hex(chunk@.take(i as int)),
        decreases chunk@.len() - i,
    {
        assert(chunk@.take(i + 1).drop_last() =~= chunk@.take(i as int));
        if i > 0 {
            out.push(' ');
        }
        push_hex_digits(out, chunk[i] as u64, 2);
        assert(out@ =~= before + spaced_hex(chunk@.take(i + 1)));
        i += 1;
    }
    assert(chunk@.take(chunk@.len() as int) =~= chunk@);
}

fn push_shown(out: &mut String, chunk: &[u8])
    ensures
        final(out)@ == old(out)@ + chunk@.map_values(|b: u8| shown_char(b)),
{
    let ghost before = out@;
    let ghost shown = chunk@.map_values(|b: u8| shown_char(b));
    let mut i: usize = 0;
    assert(out@ =~= before + shown.take(0));
    while i < chunk.len()
        invariant
            i <= chunk@.len(),
            shown == chunk@.map_values(|b: u8| shown_char(b)),
            out@ == before + shown.take(i as int),
        decreases chunk@.len() - i,
    {
        let b: u8 = chunk[i];
        let c: char = if 0x20 <= b && b <= 0x7E {
            b as char
        } else {
            '.'
        };
        out.push(c);
        assert(out@ =~= before + shown.take(i + 1));
        i += 1;
    }
    assert(shown.take(chunk@.len() as int) =~= shown);
}

/// A line of a dump.
fn dump_line_of(offset: usize, chunk: &[u8]) -> (r: String)
    requires
        chunk@.len() <= 16,
    ensures
        r@ == dump_line(offset as nat, chunk@),
{
    proof {
        lemma_spaced_hex_len(chunk@);
    }
    let mut line: String = text_of("  ");
    push_hex_padded(&mut line, offset as u64, 4);
    line.append("  ");
    push_spaced_hex(&mut line, chunk);
    let used: usize = if chunk.len() == 0 {
        0
    } else {
        3 * chunk.len() - 1
    };
    push_spaces(&mut line, 48 - used);
    line.append("  ");
    push_shown(&mut line, chunk);
    line
}

/// The lines of a dump: sixteen bytes on each, with their offset, in hexadecimal and as
/// characters.
pub fn hexdump(data: &[u8]) -> (r: Vec<String>)
    ensures
        r@.len() == dump_lines(data@).len(),
        forall|i: int| 0 <= i < r@.len() ==> (#[trigger] r@[i])@ == dump_lines(data@)[i],
{
    let mut lines: Vec<String> = Vec::new();
    let mut at: usize = 0;
    while at < data.len()
        invariant
            at <= data@.len(),
            at == dump_line_start(data@.len(), lines@.len()),
            lines@.len() <= dump_lines(data@).len(),
            forall|i: int|
                0 <= i < lines@.len() ==> (#[trigger] lines@[i])@ == dump_lines(data@)[i],
        decreases data@.len() - at,
    {
        let end: usize = if data.len() - at >= 16 {
            at + 16
        } else {
            data.len()
        };
        lines.push(dump_line_of(at, vstd::slice::slice_subrange(data, at, end)));
        at = end;
    }
    lines
}

/// Where line `i` of a dump starts, or the end of the data where there is no such line.
spec fn dump_line_start(len: nat, i: nat) -> nat {
    if 16 * i <= len {
        16 * i
    } else {
        len
    }
}

// ---------- Choice of a device ----------
/// A text in lower case, as Unicode defines it.
pub uninterp spec fn lowercase(text: Seq<char>) -> Seq<char>;

/// Trusted: `str::to_lowercase` of the standard library gives the lower-case equivalent of the
/// text, which depends on the text alone.
pub assume_specification[ str::to_lowercase ](s: &str) -> (r: String)
    ensures
        r@ == lowercase(s@),
;

/// Whether a text occurs in another at place `at`.
pub open spec fn occurs_at(text: Seq<char>, part: Seq<char>, at: int) -> bool {
    0 <= at && at + part.len() <= text.len() && text.subrange(at, at + part.len()) == part
}

/// Whether a text occurs in another.
pub open spec fn occurs_in(text: Seq<char>, part: Seq<char>) -> bool {
    exists|at: int| occurs_at(text, part, at)
}

/// Whether a device is meant by a query: its address is the query, or its name holds the query,
/// upper and lower case being the same.
pub open spec fn device_matches(name: Seq<char>, address: Seq<char>, query: Seq<char>) -> bool {
    address == query || occurs_in(lowercase(name), lowercase(query))
}

fn chars_of(text: &str) -> (r: Vec<char>)
    ensures
        r@ == text@,
{
    let mut out: Vec<char> = Vec::new();
    let len: usize = text.unicode_len();
    let mut i: usize = 0;
    while i < len
        invariant
            i <= len,
            len == text@.len(),
            out@ == text@.take(i as int),
        decreases len - i,
    {
        out.push(text.get_char(i));
        assert(out@ =~= text@.take(i + 1));
        i += 1;
    }
    assert(text@.take(len as int) =~= text@);
    out
}

fn stands_at(text: &[char], part: &[char], at: usize) -> (r: bool)
    requires
        at + part@.len() <= text@.len(),
    ensures
        r == occurs_at(text@, part@, at as int),
{
    let len: usize = text.len();
    let mut j: usize = 0;
    while j < part.len()
        invariant
            j <= part@.len(),
            at + part@.len() <= text@.len(),
            len == text@.len(),
            forall|k: int| 0 <= k < j ==> text@[at + k] == part@[k],
        decreases part@.len() - j,
    {
        if text[at + j] != part[j] {
            assert(text@.subrange(at as int, at + part@.len())[j as int] != part@[j as int]);
            return false;
        }
        j += 1;
    }
    assert(text@.subrange(at as int, at + part@.len()) =~= part@);
    true
}

/// Whether a text occurs in another.
pub fn contains_text(text: &str, part: &str) -> (r: bool)
    ensures
        r == occurs_in(text@, part@),
{
    let whole: Vec<char> = chars_of(text);
    let wanted: Vec<char> = chars_of(part);
    if wanted.len() > whole.len() {
        return false;
    }
    let last: usize = whole.len() - wanted.len();
    let mut at: usize = 0;
    while at < last
        invariant
            whole@ == text@,
            wanted@ == part@,
            last == whole@.len() - wanted@.len(),
            at <= last,
            forall|k: int| 0 <= k < at ==> !occurs_at(whole@, wanted@, k),
        decreases last - at,
    {
        if stands_at(&whole, &wanted, at) {
            return true;
        }
        at += 1;
    }
    stands_at(&whole, &wanted, last)
}

/// Whether a device is meant by a query, given its name and the query in lower case.
pub fn query_selects(address: &String, query: &String, lower_name: &str, lower_query: &str) -> (r:
    bool)
    ensures
        r == (address@ == query@ || occurs_in(lower_name@, lower_query@)),
{
    *address == *query || contains_text(lower_name, lower_query)
}

/// The first device that is meant by a query.
pub fn find_device(devices: &[DeviceInfo], query: &str) -> (r: Option<usize>)
    ensures
        match r {
            Some(i) => {
                &&& i < devices@.len()
                &&& device_matches(devices@[i as int].name@, devices@[i as int].address@, query@)
                &&& forall|j: int|
                    0 <= j < i ==> !device_matches(
                        (#[trigger] devices@[j]).name@,
                        devices@[j].address@,
                        query@,
                    )
            },
            None => forall|j: int|
                0 <= j < devices@.len() ==> !device_matches(
                    (#[trigger] devices@[j]).name@,
                    devices@[j].address@,
                    query@,
                ),
        },
{
    let wanted: String = text_of(query);
    let lower_query: String = query.to_lowercase();
    let mut i: usize = 0;
    while i < devices.len()
        invariant
            i <= devices@.len(),
            wanted@ == query@,
            lower_query@ == lowercase(query@),
            forall|j: int|
                0 <= j < i ==> !device_matches(
                    (#[trigger] devices@[j]).name@,
                    devices@[j].address@,
                    query@,
                ),
        decreases devices@.len() - i,
    {
        let lower_name: String = devices[i].name.as_str().to_lowercase();
        if query_selects(&devices[i].address, &wanted, lower_name.as_str(), lower_query.as_str()) {
            return Some(i);
        }
        i += 1;
    }
    None
}

// ---------- Laws ----------
/// Bytes in hexadecimal, as text, without spaces.
pub open spec fn hex_text(data: Seq<u8>) -> Seq<u8> {
    Seq::new(
        2 * data.len(),
        |i: int|
            hex_char(
                if i % 2 == 0 {
                    data[i / 2] as nat / 16
                } else {
                    data[i / 2] as nat % 16
                },
            ) as u8,
    )
}

/// Bytes that are written in hexadecimal are read back, wherever spaces stand in the text.
pub proof fn law_hex_roundtrip(data: Seq<u8>, text: Seq<u8>)
    requires
        without_spaces(text) == hex_text(data),
    ensures
        hex_bytes(text) == Ok::<Seq<u8>, HexError>(data),
        hex_can_split(text),
{
    let digits = hex_text(data);
    assert forall|k: int| 0 <= k < data.len() implies #[trigger] hex_pair_at(digits, k) == Some(
        data[k],
    ) by {
        assert((2 * k) / 2 == k && (2 * k) % 2 == 0);
        assert((2 * k + 1) / 2 == k && (2 * k + 1) % 2 == 1);
    }
    assert(Seq::new(digits.len() / 2, |k: int| hex_pair_at(digits, k)->0) =~= data);
    lemma_hex_text_whole(data, 0);
}

proof fn lemma_hex_text_whole(data: Seq<u8>, k: nat)
    ensures
        pairs_whole_from(hex_text(data), k),
    decreases data.len() - k,
{
    if k < data.len() {
        lemma_hex_text_whole(data, k + 1);
    }
}

/// Every byte of the data is shown on exactly one line of a dump: each line but the last holds
/// sixteen bytes, and the last one holds the rest, at least one and at most sixteen.
pub proof fn law_dump_covers(data: Seq<u8>, i: nat)
    requires
        i < dump_lines(data).len(),
    ensures
        16 * i < dump_line_end(data.len(), i) <= 16 * i + 16,
        i + 1 < dump_lines(data).len() ==> dump_line_end(data.len(), i) == 16 * (i + 1),
        i + 1 == dump_lines(data).len() ==> dump_line_end(data.len(), i) == data.len(),
{
}

/// A device is meant by its own address, whatever its name is.
pub proof fn law_address_matches(name: Seq<char>, address: Seq<char>)
    ensures
        device_matches(name, address, address),
{
}

/// The whole name of a device, in any mix of cases with the same lower case, means the device.
pub proof fn law_name_matches(name: Seq<char>, address: Seq<char>, query: Seq<char>)
    requires
        lowercase(query) == lowercase(name),
    ensures
        device_matches(name, address, query),
{
    let lower = lowercase(name);
    assert(lower.subrange(0, lower.len() as int) =~= lower);
    assert(occurs_at(lower, lower, 0));
}

/// Taking the spaces out keeps every other byte, in order.
pub proof fn law_spaces_left_aside(text: Seq<u8>, c: u8)
    ensures
        without_spaces(Seq::empty()) == Seq::<u8>::empty(),
        c == 0x20 ==> without_spaces(text.push(c)) == without_spaces(text),
        c != 0x20 ==> without_spaces(text.push(c)) == without_spaces(text).push(c),
{
    assert(text.push(c).drop_last() =~= text);
}

/// The hexadecimal digits are `0` to `9`, `A` to `F` and `a` to `f`, and have the values from 0 to
/// 15 in that order; nothing else is a digit.
pub proof fn law_hex_digit_values(c: u8)
    ensures
        hex_digit_value(c) is Some <==> 0x30 <= c <= 0x39 || 0x41 <= c <= 0x46 || 0x61 <= c <= 0x66,
        0x30 <= c <= 0x39 ==> hex_digit_value(c) == Some((c - 48) as nat),
        0x41 <= c <= 0x46 ==> hex_digit_value(c) == Some((c - 55) as nat),
        0x61 <= c <= 0x66 ==> hex_digit_value(c) == Some((c - 87) as nat),
{
}

/// What a text stands for. With an odd number of characters it is refused for its length; with a
/// pair that is neither two digits nor a plus sign and a digit, for that pair; and otherwise each
/// pair is a byte, sixteen times its first digit, where it has one, and its second.
pub proof fn law_hex_reads_pairs(text: Seq<u8>, k: int)
    ensures
        ({
            let digits = without_spaces(text);
            let read = hex_bytes(text);
            &&& digits.len() % 2 == 1 <==> read == Err::<Seq<u8>, HexError>(HexError::OddLength)
            &&& read matches Ok(bytes) ==> {
                &&& digits.len() == 2 * bytes.len()
                &&& 0 <= k < bytes.len() ==> {
                    let high = digits[2 * k];
                    let low = digits[2 * k + 1];
                    &&& hex_digit_value(low) is Some
                    &&& high == 0x2B || hex_digit_value(high) is Some
                    &&& bytes[k] == hex_digit_value(low)->0 + if high == 0x2B {
                        0
                    } else {
                        16 * hex_digit_value(high)->0
                    }
                }
            }
            &&& digits.len() % 2 == 0 && 0 <= k < digits.len() / 2 && (hex_digit_value(
                digits[2 * k + 1],
            ) is None || (digits[2 * k] != 0x2B && hex_digit_value(digits[2 * k]) is None))
                ==> read == Err::<Seq<u8>, HexError>(HexError::InvalidDigit)
        }),
{
    let digits = without_spaces(text);
    if 0 <= k < digits.len() / 2 {
        let pair = hex_pair_at(digits, k);
        assert(pair == hex_pair_value(digits[2 * k], digits[2 * k + 1]));
    }
}

/// Whether pair `k` has no value: its second character is not a digit, or its first is neither a
/// digit nor a plus sign.
pub open spec fn pair_unreadable(digits: Seq<u8>, k: int) -> bool {
    hex_digit_value(digits[2 * k + 1]) is None || (digits[2 * k] != 0x2B && hex_digit_value(
        digits[2 * k],
    ) is None)
}

/// A text of even length is refused exactly where some pair of it has no value.
pub proof fn law_hex_refused(text: Seq<u8>)
    requires
        without_spaces(text).len() % 2 == 0,
    ensures
        hex_bytes(text) is Err <==> exists|k: int|
            0 <= k < without_spaces(text).len() / 2 && #[trigger] pair_unreadable(
                without_spaces(text),
                k,
            ),
{
    let digits = without_spaces(text);
    if hex_bytes(text) is Err {
        let k = choose|k: int|
            0 <= k < digits.len() / 2 && (#[trigger] hex_pair_at(digits, k)) is None;
        assert(pair_unreadable(digits, k));
    }
    if exists|k: int| 0 <= k < digits.len() / 2 && #[trigger] pair_unreadable(digits, k) {
        let k = choose|k: int| 0 <= k < digits.len() / 2 && #[trigger] pair_unreadable(digits, k);
        assert(hex_pair_at(digits, k) is None);
    }
}

/// A text that holds only digits, an even number of them, is always read.
pub proof fn law_hex_digits_are_read(text: Seq<u8>)
    requires
        without_spaces(text).len() % 2 == 0,
        forall|i: int|
            0 <= i < without_spaces(text).len() ==> hex_digit_value(
                #[trigger] without_spaces(text)[i],
            ) is Some,
    ensures
        hex_bytes(text) is Ok,
        hex_can_split(text),
{
    let digits = without_spaces(text);
    assert forall|k: int| 0 <= k < digits.len() / 2 implies (#[trigger] hex_pair_at(
        digits,
        k,
    )) is Some by {
        assert(hex_digit_value(digits[2 * k]) is Some);
        assert(hex_digit_value(digits[2 * k + 1]) is Some);
    }
    lemma_digits_whole(digits, 0);
}

proof fn lemma_digits_whole(digits: Seq<u8>, k: nat)
    requires
        forall|i: int|
            0 <= i < digits.len() ==> hex_digit_value(#[trigger] digits[i]) is Some,
    ensures
        pairs_whole_from(digits, k),
    decreases digits.len() - k,
{
    if 2 * k < digits.len() {
        lemma_digits_whole(digits, k + 1);
        if 2 * k + 2 < digits.len() {
            assert(hex_digit_value(digits[(2 * k + 2) as int]) is Some);
        }
    }
}

/// A text cannot be taken apart exactly where its length is even and, behind pairs that all have a
/// value, a pair ends inside a character: the byte that follows it is one that continues a
/// character.
pub proof fn law_hex_split(text: Seq<u8>)
    ensures
        !hex_can_split(text) <==> without_spaces(text).len() % 2 == 0 && exists|k: nat|
            #[trigger] cuts_first(without_spaces(text), k),
{
    let digits = without_spaces(text);
    if digits.len() % 2 == 0 {
        lemma_cut(digits, 0);
        if !hex_can_split(text) {
            let k = choose|k: nat| #[trigger] cuts_from(digits, 0, k);
            assert(cuts_first(digits, k));
        }
        if exists|k: nat| #[trigger] cuts_first(digits, k) {
            let k = choose|k: nat| #[trigger] cuts_first(digits, k);
            assert(cuts_from(digits, 0, k));
        }
    }
}

/// Whether pair `k` is followed by a byte that continues a character, and every pair before it has
/// a value.
pub open spec fn cuts_first(digits: Seq<u8>, k: nat) -> bool {
    &&& 2 * k + 2 < digits.len()
    &&& 0x80 <= digits[2 * k as int + 2] < 0xC0
    &&& forall|j: int|
        0 <= j < k ==> (#[trigger] hex_pair_value(digits[2 * j], digits[2 * j + 1])) is Some
}

spec fn cuts_from(digits: Seq<u8>, from: nat, k: nat) -> bool {
    &&& from <= k
    &&& 2 * k + 2 < digits.len()
    &&& 0x80 <= digits[2 * k as int + 2] < 0xC0
    &&& forall|j: int|
        from <= j < k ==> (#[trigger] hex_pair_value(digits[2 * j], digits[2 * j + 1])) is Some
}

proof fn lemma_cut(digits: Seq<u8>, from: nat)
    ensures
        !pairs_whole_from(digits, from) <==> exists|k: nat| #[trigger] cuts_from(digits, from, k),
    decreases digits.len() - from,
{
    if 2 * from < digits.len() {
        lemma_cut(digits, from + 1);
        let here = hex_pair_value(digits[2 * from as int], digits[2 * from as int + 1]);
        assert(here == hex_pair_at(digits, from as int));
        if !starts_char(digits, (2 * from + 2) as int) {
            assert(cuts_from(digits, from, from));
        } else if here is Some {
            if !pairs_whole_from(digits, from + 1) {
                let k = choose|k: nat| #[trigger] cuts_from(digits, from + 1, k);
                assert(cuts_from(digits, from, k));
            }
            if exists|k: nat| #[trigger] cuts_from(digits, from, k) {
                let k = choose|k: nat| #[trigger] cuts_from(digits, from, k);
                assert(k != from);
                assert(cuts_from(digits, from + 1, k));
            }
        } else {
            assert forall|k: nat| !#[trigger] cuts_from(digits, from, k) by {
                if cuts_from(digits, from, k) && k > from {
                    assert(hex_pair_value(digits[2 * from as int], digits[2 * from as int + 1])
                        is Some);
                }
            }
        }
    }
}

/// A printable ASCII character is shown as itself, and every other byte as a dot.
pub proof fn law_shown_chars(b: u8)
    ensures
        32 <= b <= 126 ==> shown_char(b) as int == b,
        b < 32 || b > 126 ==> shown_char(b) == '.',
{
}

/// In the hexadecimal column every byte has two digits at its place, which read as that byte, and
/// there is a space between each two bytes.
pub proof fn law_spaced_hex_places(data: Seq<u8>, j: int)
    requires
        0 <= j < data.len(),
    ensures
        spaced_hex(data).len() == 3 * data.len() - 1,
        hex_value(spaced_hex(data).subrange(3 * j, 3 * j + 2)) == Some(data[j] as int),
        j + 1 < data.len() ==> spaced_hex(data)[3 * j + 2] == ' ',
    decreases data.len(),
{
    let text = spaced_hex(data);
    let own = hex_digits(data.last() as nat, 2);
    lemma_spaced_hex_len(data);
    lemma_hex_digits_len(data.last() as nat, 2);
    if j == data.len() - 1 {
        assert(hex_value(own) == Some(data[j] as int)) by {
            law_hex_digits_read_back(data.last() as nat, 2);
        }
        lemma_spaced_hex_len(data.drop_last());
        assert(text.subrange(3 * j, 3 * j + 2) =~= own);
    } else {
        let fewer = data.drop_last();
        let front = spaced_hex(fewer);
        law_spaced_hex_places(fewer, j);
        assert(text == front + seq![' '] + own);
        assert(text.subrange(3 * j, 3 * j + 2) =~= front.subrange(3 * j, 3 * j + 2));
        if j + 1 < fewer.len() {
            assert(text[3 * j + 2] == front[3 * j + 2]);
        } else {
            assert(text[3 * j + 2] == seq![' '][0]);
        }
    }
}

/// A dump has as many lines as there are sixteen bytes begun; none of no bytes.
pub proof fn law_dump_line_count(data: Seq<u8>)
    ensures
        16 * dump_lines(data).len() >= data.len(),
        16 * dump_lines(data).len() < data.len() + 16,
{
}

/// A dump has a line for each sixteen bytes begun. Line `i` is two spaces, the offset `16 * i` in
/// hexadecimal with at least four digits, two spaces, the bytes from there on in a column of 48
/// characters, two spaces, and the same bytes as characters.
pub proof fn law_dump_line_parts(data: Seq<u8>, i: int, chunk: Seq<u8>)
    requires
        0 <= 16 * i < data.len(),
        chunk == data.subrange(
            16 * i,
            if 16 * i + 16 <= data.len() {
                16 * i + 16
            } else {
                data.len() as int
            },
        ),
    ensures
        dump_lines(data).len() == (data.len() + 15) / 16,
        ({
            let line = dump_lines(data)[i];
            let offset = hex_padded((16 * i) as nat, 4);
            let width = offset.len() as int;
            let hex = spaced_hex(chunk);
            &&& line.len() == width + 54 + chunk.len()
            &&& line[0] == ' ' && line[1] == ' '
            &&& line.subrange(2, 2 + width) == offset
            &&& line[2 + width] == ' ' && line[3 + width] == ' '
            &&& line.subrange(4 + width, 4 + width + hex.len()) == hex
            &&& forall|j: int|
                4 + width + hex.len() <= j < 54 + width ==> #[trigger] line[j] == ' '
            &&& forall|j: int|
                0 <= j < chunk.len() ==> line[54 + width + j] == shown_char(#[trigger] chunk[j])
        }),
{
    let line = dump_lines(data)[i];
    let offset = hex_padded((16 * i) as nat, 4);
    let width = offset.len() as int;
    let hex = spaced_hex(chunk);
    reveal_strlit("  ");
    lemma_spaced_hex_len(chunk);
    assert(data.subrange(16 * i, dump_line_end(data.len(), i as nat) as int) == chunk);
    assert(line == dump_line((16 * i) as nat, chunk));
    assert(line.subrange(2, 2 + width) =~= offset);
    assert(line.subrange(4 + width, 4 + width + hex.len()) =~= hex);
}

/// A text occurs in another exactly where that is something, the text, and something.
pub proof fn law_occurs(text: Seq<char>, part: Seq<char>, before: Seq<char>, after: Seq<char>)
    ensures
        text == before + part + after ==> occurs_in(text, part),
        occurs_in(text, part) ==> exists|at: int|
            0 <= at <= text.len() - part.len() && text == #[trigger] text.take(at) + part
                + text.skip(at + part.len()),
{
    if text == before + part + after {
        let at = before.len() as int;
        assert(text.subrange(at, at + part.len()) =~= part);
        assert(occurs_at(text, part, at));
    }
    if occurs_in(text, part) {
        let at = choose|at: int| occurs_at(text, part, at);
        assert(text =~= text.take(at) + part + text.skip(at + part.len()));
    }
}

/// A device is meant by a query exactly where its address is the query, letter for letter, or its
/// name in lower case holds the query in lower case.
pub proof fn law_device_matches(name: Seq<char>, address: Seq<char>, query: Seq<char>)
    ensures
        address == query ==> device_matches(name, address, query),
        occurs_in(lowercase(name), lowercase(query)) ==> device_matches(name, address, query),
        address != query && !occurs_in(lowercase(name), lowercase(query)) ==> !device_matches(
            name,
            address,
            query,
        ),
{
}

/// The texts of the errors.
pub proof fn law_hex_error_messages()
    ensures
        HexError::OddLength.message() == "hex string has odd length"@,
        HexError::InvalidDigit.message() == "invalid digit found in string"@,
{
}

} // verus!
