//! The chain of headers in an `ar` archive, as far as it decides whether the
//! archive can be read entry by entry.
//!
//! A GNU archive keeps long member names in a table, and a header may give, in
//! place of a name, an index into that table. Reading an archive whose index lies
//! beyond the table does not return, and neither does reading one that asks for
//! more memory than a machine can address. So such headers are found up front, and
//! an archive can be read up to the first of them.

use vstd::prelude::*;
use vstd::slice::slice_subrange;
use vstd::utf8::*;

use crate::text;
use crate::text::{chars_of, trimmed_len, utf8_text};

verus! {

/// Whether a character is a digit in the given radix, which is at most ten.
pub open spec fn is_digit(c: char, radix: int) -> bool {
    0x30 <= c as u32 && (c as u32) < 0x30 + radix
}

/// The number that a text of digits stands for.
pub open spec fn digits_value(digits: Seq<char>, radix: int) -> int
    decreases digits.len(),
{
    if digits.len() == 0 {
        0
    } else {
        digits_value(digits.drop_last(), radix) * radix + (digits.last() as u32 - 0x30)
    }
}

/// The digits of a number, behind its sign.
pub open spec fn unsigned(text: Seq<char>) -> Seq<char> {
    if text.len() > 1 && text[0] == '+' {
        text.skip(1)
    } else {
        text
    }
}

/// The number in a header field of at most sixteen bytes, with white space behind
/// it; `None` where the field holds none.
pub open spec fn number_in(field: Seq<u8>, radix: int) -> Option<int> {
    let digits = unsigned(text::trimmed(decode_utf8(field)));
    if valid_utf8(field) && digits.len() > 0 && forall|i: int|
        0 <= i < digits.len() ==> is_digit(#[trigger] digits[i], radix) {
        Some(digits_value(digits, radix))
    } else {
        None
    }
}

/// Whether a header field holds nothing but white space.
pub open spec fn is_blank(field: Seq<u8>) -> bool {
    valid_utf8(field) && text::trimmed(decode_utf8(field)).len() == 0
}

/// The formats of an archive, as far as they are known while it is read.
#[derive(Clone, Copy, PartialEq, Eq, Debug, Structural)]
pub enum Format {
    Common,
    Bsd,
    Gnu,
}

/// Where a reader stands between two entries.
pub struct Place {
    /// The bytes read so far.
    pub at: int,
    pub format: Format,
    /// The size of the table of long names.
    pub names: int,
    /// Whether a padding byte comes next.
    pub padded: bool,
}

/// What the reader comes to when it reads one more header.
pub enum Reading {
    /// The end of the archive, or a malformed header.
    Over,
    /// A header that the reader does not get past: its index lies beyond the table
    /// of long names, or its name or table is larger than any memory.
    Broken,
    /// The place behind the entry.
    Next(Place),
}

/// The identifier in a header, without the spaces at its end.
pub open spec fn identifier(field: Seq<u8>) -> Seq<u8>
    decreases field.len(),
{
    if field.len() > 0 && field.last() == 0x20 {
        identifier(field.drop_last())
    } else {
        field
    }
}

/// Whether the time stamp, the owner, the group and the mode of a header are
/// numbers. GNU archives may leave owner and group blank.
pub open spec fn has_numbers(header: Seq<u8>, format: Format) -> bool {
    let owner = header.subrange(28, 34);
    let group = header.subrange(34, 40);
    &&& number_in(header.subrange(16, 28), 10) is Some
    &&& number_in(owner, 10) is Some || (format == Format::Gnu && is_blank(owner))
    &&& number_in(group, 10) is Some || (format == Format::Gnu && is_blank(group))
    &&& number_in(header.subrange(40, 48), 8) is Some
}

/// The place behind `size` bytes of contents that start at `data`.
pub open spec fn behind(len: int, data: int, size: int, format: Format, names: int) -> Reading {
    Reading::Next(
        Place {
            at: if data + size <= len {
                data + size
            } else {
                len
            },
            format,
            names,
            padded: size % 2 != 0,
        },
    )
}

/// `__.SYMDEF`, the name of the symbol table in a BSD archive.
pub open spec fn symdef() -> Seq<u8> {
    seq![0x5f, 0x5f, 0x2e, 0x53, 0x59, 0x4d, 0x44, 0x45, 0x46]
}

/// `__.SYMDEF SORTED`, the other name of the symbol table in a BSD archive.
pub open spec fn symdef_sorted() -> Seq<u8> {
    symdef() + seq![0x20, 0x53, 0x4f, 0x52, 0x54, 0x45, 0x44]
}

/// Reading goes on at an entry whose name stands in a GNU or in a plain header.
pub open spec fn read_plain(
    bytes: Seq<u8>,
    header: Seq<u8>,
    data: int,
    size: int,
    format: Format,
    names: int,
) -> Reading {
    let id = identifier(header.subrange(0, 16));
    if !has_numbers(header, format) {
        Reading::Over
    } else if format != Format::Gnu && seq![0x23u8, 0x31, 0x2f].is_prefix_of(id) {
        match number_in(header.subrange(3, 16), 10) {
            Some(name_len) => if size < name_len {
                Reading::Over
            } else if name_len > isize::MAX {
                Reading::Broken
            } else if data + name_len > bytes.len() {
                Reading::Over
            } else {
                behind(bytes.len() as int, data + name_len, size - name_len, Format::Bsd, names)
            },
            None => Reading::Over,
        }
    } else if format == Format::Bsd && (id == symdef() || id == symdef_sorted()) {
        Reading::Next(Place { at: data, format, names, padded: size % 2 != 0 })
    } else {
        behind(bytes.len() as int, data, size, format, names)
    }
}

/// What reading one more header comes to.
pub open spec fn read_header(bytes: Seq<u8>, place: Place) -> Reading {
    let skip = place.padded && place.at < bytes.len();
    let at = if skip {
        place.at + 1
    } else {
        place.at
    };
    let header = bytes.subrange(at, at + 60);
    let id = identifier(header.subrange(0, 16));
    let data = at + 60;
    if (skip && bytes[place.at] != 0x0a) || data > bytes.len() {
        Reading::Over
    } else {
        match number_in(header.subrange(48, 58), 10) {
            None => Reading::Over,
            Some(size) => if place.format == Format::Bsd || id.len() == 0 {
                read_plain(bytes, header, data, size, place.format, place.names)
            } else if id[0] != 0x2f {
                let format = if id.last() == 0x2f {
                    Format::Gnu
                } else {
                    place.format
                };
                read_plain(bytes, header, data, size, format, place.names)
            } else if id == seq![0x2fu8] {
                behind(bytes.len() as int, data, size, Format::Gnu, place.names)
            } else if id == seq![0x2fu8, 0x2f] {
                if size > isize::MAX {
                    Reading::Broken
                } else if data + size > bytes.len() {
                    Reading::Over
                } else {
                    behind(bytes.len() as int, data, size, Format::Gnu, size)
                }
            } else {
                match number_in(header.subrange(1, 16), 10) {
                    None => Reading::Over,
                    Some(start) => if start > place.names {
                        Reading::Broken
                    } else {
                        read_plain(bytes, header, data, size, Format::Gnu, place.names)
                    },
                }
            },
        }
    }
}

/// Whether the reader gets past every header from `place` on.
pub open spec fn reads_on(bytes: Seq<u8>, place: Place) -> bool
    decreases bytes.len() - place.at,
    via reads_on_decreases
{
    match read_header(bytes, place) {
        Reading::Over => true,
        Reading::Broken => false,
        Reading::Next(next) => reads_on(bytes, next),
    }
}

/// Where the first header lies, from `place` on, that the reader does not get past;
/// the end of the bytes where there is none.
pub open spec fn stops_at(bytes: Seq<u8>, place: Place) -> int
    decreases bytes.len() - place.at,
    via stops_at_decreases
{
    match read_header(bytes, place) {
        Reading::Over => bytes.len() as int,
        Reading::Broken => place.at,
        Reading::Next(next) => stops_at(bytes, next),
    }
}

proof fn lemma_number_not_negative(digits: Seq<char>, radix: int)
    requires
        0 <= radix,
        forall|i: int| 0 <= i < digits.len() ==> is_digit(#[trigger] digits[i], radix),
    ensures
        0 <= digits_value(digits, radix),
    decreases digits.len(),
{
    if digits.len() > 0 {
        assert forall|i: int| 0 <= i < digits.drop_last().len() implies is_digit(
            #[trigger] digits.drop_last()[i],
            radix,
        ) by {
            assert(digits.drop_last()[i] == digits[i]);
        }
        lemma_number_not_negative(digits.drop_last(), radix);
        assert(is_digit(digits[digits.len() - 1], radix));
        assert(digits_value(digits.drop_last(), radix) * radix >= 0) by (nonlinear_arith)
            requires
                digits_value(digits.drop_last(), radix) >= 0,
                radix >= 0,
        ;
    }
}

proof fn lemma_reads_forward(bytes: Seq<u8>, place: Place)
    ensures
        read_header(bytes, place) matches Reading::Next(next) ==> place.at + 60 <= next.at
            <= bytes.len(),
        read_header(bytes, place) matches Reading::Next(next) ==> place.padded && place.at
            < bytes.len() ==> place.at + 61 <= next.at,
{
    assert forall|field: Seq<u8>, radix: int| 0 <= radix implies match #[trigger] number_in(
        field,
        radix,
    ) {
        Some(n) => n >= 0,
        None => true,
    } by {
        if number_in(field, radix) is Some {
            lemma_number_not_negative(unsigned(text::trimmed(decode_utf8(field))), radix);
        }
    }
}

#[via_fn]
proof fn reads_on_decreases(bytes: Seq<u8>, place: Place) {
    lemma_reads_forward(bytes, place);
}

#[via_fn]
proof fn stops_at_decreases(bytes: Seq<u8>, place: Place) {
    lemma_reads_forward(bytes, place);
}

/// `!<arch>` and a line feed, the start of every archive.
pub open spec fn magic() -> Seq<u8> {
    seq![0x21, 0x3c, 0x61, 0x72, 0x63, 0x68, 0x3e, 0x0a]
}

/// The place before the first header.
pub open spec fn start() -> Place {
    Place { at: 8, format: Format::Common, names: 0, padded: false }
}

/// Whether the bytes can be read entry by entry: they are no archive, or the
/// reader gets past every header that it comes to.
pub open spec fn readable(bytes: Seq<u8>) -> bool {
    magic().is_prefix_of(bytes) ==> reads_on(bytes, start())
}

/// The bytes before the first header that the reader does not get past. A reader of
/// all bytes has handed out the entries of this part when it comes to that header.
pub open spec fn readable_part(bytes: Seq<u8>) -> Seq<u8> {
    if magic().is_prefix_of(bytes) {
        bytes.take(stops_at(bytes, start()))
    } else {
        bytes
    }
}

/// A header and the contents behind it are read in the same way where the bytes end
/// later on.
proof fn lemma_header_before(bytes: Seq<u8>, place: Place, end: int)
    requires
        0 <= place.at,
        end < bytes.len(),
        read_header(bytes, place) matches Reading::Next(next) && next.at <= end,
    ensures
        read_header(bytes.take(end), place) == read_header(bytes, place),
{
    let part = bytes.take(end);
    let at = if place.padded && place.at < bytes.len() {
        place.at + 1
    } else {
        place.at
    };
    lemma_reads_forward(bytes, place);
    assert(part.subrange(at, at + 60) =~= bytes.subrange(at, at + 60));
}

/// The part before the first header that the reader does not get past is shorter
/// than the whole, and can be read.
proof fn lemma_stops(bytes: Seq<u8>, place: Place)
    requires
        0 <= place.at <= bytes.len(),
    ensures
        place.at <= stops_at(bytes, place) <= bytes.len(),
        reads_on(bytes, place) <==> stops_at(bytes, place) == bytes.len(),
        reads_on(bytes.take(stops_at(bytes, place)), place),
    decreases bytes.len() - place.at,
{
    let end = stops_at(bytes, place);
    lemma_reads_forward(bytes, place);
    match read_header(bytes, place) {
        Reading::Over => {
            assert(bytes.take(end) =~= bytes);
        },
        Reading::Broken => {},
        Reading::Next(next) => {
            lemma_stops(bytes, next);
            if end < bytes.len() {
                lemma_header_before(bytes, place, end);
            } else {
                assert(bytes.take(end) =~= bytes);
            }
        },
    }
}

/// The readable part of any bytes can be read. It is the whole exactly where that
/// can be read.
pub proof fn readable_part_can_be_read(bytes: Seq<u8>)
    ensures
        readable(readable_part(bytes)),
        readable_part(bytes).is_prefix_of(bytes),
        readable(bytes) <==> readable_part(bytes) == bytes,
        readable(bytes) <==> readable_part(bytes).len() == bytes.len(),
{
    if magic().is_prefix_of(bytes) {
        lemma_stops(bytes, start());
        let part = readable_part(bytes);
        assert(magic().is_prefix_of(part));
        if part.len() == bytes.len() {
            assert(part =~= bytes);
        }
    }
}

proof fn lemma_decoded_len(bytes: Seq<u8>)
    requires
        valid_utf8(bytes),
    ensures
        decode_utf8(bytes).len() <= bytes.len(),
    decreases bytes.len(),
{
    if bytes.len() > 0 {
        lemma_decoded_len(pop_first_scalar(bytes));
    }
}

/// Ten to the power `n`.
spec fn power_of_ten(n: nat) -> int
    decreases n,
{
    if n == 0 {
        1
    } else {
        10 * power_of_ten((n - 1) as nat)
    }
}

proof fn lemma_power_bound(n: nat)
    requires
        n <= 16,
    ensures
        1 <= power_of_ten(n) <= 10_000_000_000_000_000,
{
    reveal_with_fuel(power_of_ten, 17);
}

/// The number in the field between two positions.
fn number(bytes: &[u8], from: usize, to: usize, radix: u64) -> (r: Option<u64>)
    requires
        from <= to <= bytes@.len(),
        to - from <= 16,
        radix == 8 || radix == 10,
    ensures
        match r {
            Some(n) => number_in(bytes@.subrange(from as int, to as int), radix as int) == Some(
                n as int,
            ),
            None => number_in(bytes@.subrange(from as int, to as int), radix as int) is None,
        },
{
    let ghost field = bytes@.subrange(from as int, to as int);
    let text = match utf8_text(slice_subrange(bytes, from, to)) {
        Some(text) => text,
        None => {
            return None;
        },
    };
    let chars = chars_of(text.as_str());
    let end: usize = trimmed_len(&chars);
    let start: usize = if end > 1 && chars[0] == '+' {
        1
    } else {
        0
    };
    let ghost digits = unsigned(text::trimmed(decode_utf8(field)));
    proof {
        lemma_decoded_len(field);
        assert(digits =~= chars@.subrange(start as int, end as int));
    }
    if start == end {
        return None;
    }
    let mut value: u64 = 0;
    for i in start..end
        invariant
            end <= chars.len(),
            end - start <= 16,
            radix == 8 || radix == 10,
            digits == chars@.subrange(start as int, end as int),
            digits == unsigned(text::trimmed(decode_utf8(field))),
            field == bytes@.subrange(from as int, to as int),
            value == digits_value(digits.take(i - start), radix as int),
            value < power_of_ten((i - start) as nat),
            forall|j: int| 0 <= j < i - start ==> is_digit(#[trigger] digits[j], radix as int),
    {
        let c = chars[i];
        proof {
            assert(digits[i - start] == c);
            assert(digits.take(i - start + 1).drop_last() =~= digits.take(i - start));
            lemma_power_bound((i - start) as nat);
        }
        let code: u64 = c as u32 as u64;
        if code < 0x30 || code >= 0x30 + radix {
            assert(!is_digit(digits[i - start], radix as int));
            return None;
        }
        assert(value * radix <= 10 * value) by (nonlinear_arith)
            requires
                radix <= 10,
        ;
        value = value * radix + (code - 0x30);
    }
    assert(digits.take(digits.len() as int) =~= digits);
    Some(value)
}

/// Whether the field between two positions is blank.
fn blank(bytes: &[u8], from: usize, to: usize) -> (r: bool)
    requires
        from <= to <= bytes@.len(),
    ensures
        r == is_blank(bytes@.subrange(from as int, to as int)),
{
    match utf8_text(slice_subrange(bytes, from, to)) {
        Some(text) => trimmed_len(&chars_of(text.as_str())) == 0,
        None => false,
    }
}

/// A place in executable form.
struct Cursor {
    at: usize,
    format: Format,
    names: u64,
    padded: bool,
}

impl View for Cursor {
    type V = Place;

    closed spec fn view(&self) -> Place {
        Place {
            at: self.at as int,
            format: self.format,
            names: self.names as int,
            padded: self.padded,
        }
    }
}

/// A reading in executable form.
enum Step {
    Over,
    Broken,
    Next(Cursor),
}

impl View for Step {
    type V = Reading;

    closed spec fn view(&self) -> Reading {
        match self {
            Step::Over => Reading::Over,
            Step::Broken => Reading::Broken,
            Step::Next(cursor) => Reading::Next(cursor@),
        }
    }
}

/// Whether `part` stands in `bytes` from position `at` on.
fn bytes_at(bytes: &[u8], at: usize, part: &[u8]) -> (r: bool)
    requires
        at <= bytes@.len(),
    ensures
        r == (at + part@.len() <= bytes@.len() && bytes@.subrange(at as int, at + part@.len())
            == part@),
{
    let n: usize = part.len();
    if bytes.len() - at < n {
        return false;
    }
    for i in 0..n
        invariant
            n == part@.len(),
            at + n <= bytes.len(),
            forall|j: int| 0 <= j < i ==> bytes@[at + j] == part@[j],
    {
        if bytes[at + i] != part[i] {
            assert(bytes@.subrange(at as int, at + n)[i as int] != part@[i as int]);
            return false;
        }
    }
    assert(bytes@.subrange(at as int, at + n) =~= part@);
    true
}

/// The length of the identifier in the header at `at`.
fn identifier_len(bytes: &[u8], at: usize) -> (r: usize)
    requires
        at + 60 <= bytes.len(),
    ensures
        r <= 16,
        identifier(bytes@.subrange(at as int, at + 16)) == bytes@.subrange(at as int, at + r),
{
    let mut n: usize = 16;
    while n > 0 && bytes[at + n - 1] == 0x20
        invariant
            n <= 16,
            at + 60 <= bytes.len(),
            identifier(bytes@.subrange(at as int, at + n)) == identifier(
                bytes@.subrange(at as int, at + 16),
            ),
        decreases n,
    {
        proof {
            assert(bytes@.subrange(at as int, at + n).drop_last() =~= bytes@.subrange(
                at as int,
                at + n - 1,
            ));
        }
        n = n - 1;
    }
    n
}

fn step_behind(bytes: &[u8], data: usize, size: u64, format: Format, names: u64) -> (r: Step)
    requires
        data <= bytes@.len(),
    ensures
        r@ == behind(bytes@.len() as int, data as int, size as int, format, names as int),
{
    let left: u64 = (bytes.len() - data) as u64;
    let at: usize = if size <= left {
        data + size as usize
    } else {
        bytes.len()
    };
    Step::Next(Cursor { at, format, names, padded: size % 2 != 0 })
}

/// A number, or where GNU archives permit it, nothing.
fn number_or_blank(bytes: &[u8], from: usize, to: usize, format: Format) -> (r: bool)
    requires
        from <= to <= bytes@.len(),
        to - from <= 16,
    ensures
        r == (number_in(bytes@.subrange(from as int, to as int), 10) is Some || (format
            == Format::Gnu && is_blank(bytes@.subrange(from as int, to as int)))),
{
    number(bytes, from, to, 10).is_some() || (format == Format::Gnu && blank(bytes, from, to))
}

proof fn lemma_header_field(bytes: Seq<u8>, at: int, from: int, to: int)
    requires
        0 <= at,
        at + 60 <= bytes.len(),
        0 <= from <= to <= 60,
    ensures
        bytes.subrange(at, at + 60).subrange(from, to) == bytes.subrange(at + from, at + to),
{
    assert(bytes.subrange(at, at + 60).subrange(from, to) =~= bytes.subrange(at + from, at + to));
}

fn step_plain(bytes: &[u8], at: usize, size: u64, format: Format, names: u64) -> (r: Step)
    requires
        at + 60 <= bytes.len(),
    ensures
        r@ == read_plain(
            bytes@,
            bytes@.subrange(at as int, at + 60),
            at + 60,
            size as int,
            format,
            names as int,
        ),
{
    let ghost header = bytes@.subrange(at as int, at + 60);
    proof {
        lemma_header_field(bytes@, at as int, 0, 16);
        lemma_header_field(bytes@, at as int, 3, 16);
        lemma_header_field(bytes@, at as int, 16, 28);
        lemma_header_field(bytes@, at as int, 28, 34);
        lemma_header_field(bytes@, at as int, 34, 40);
        lemma_header_field(bytes@, at as int, 40, 48);
    }
    let ghost id = identifier(header.subrange(0, 16));
    let len: usize = identifier_len(bytes, at);
    if number(bytes, at + 16, at + 28, 10).is_none() || !number_or_blank(
        bytes,
        at + 28,
        at + 34,
        format,
    ) || !number_or_blank(bytes, at + 34, at + 40, format) || number(
        bytes,
        at + 40,
        at + 48,
        8,
    ).is_none() {
        return Step::Over;
    }
    let data: usize = at + 60;
    let long_name = [0x23u8, 0x31, 0x2f];
    proof {
        if id.len() >= 3 {
            assert(id.subrange(0, 3) =~= bytes@.subrange(at as int, at + 3));
        }
        assert(long_name@ =~= seq![0x23u8, 0x31, 0x2f]);
    }
    if format != Format::Gnu && len >= 3 && bytes_at(bytes, at, &long_name) {
        let name_len: u64 = match number(bytes, at + 3, at + 16, 10) {
            Some(n) => n,
            None => {
                return Step::Over;
            },
        };
        if size < name_len {
            return Step::Over;
        }
        if name_len > isize::MAX as u64 {
            return Step::Broken;
        }
        if name_len > (bytes.len() - data) as u64 {
            return Step::Over;
        }
        return step_behind(bytes, data + name_len as usize, size - name_len, Format::Bsd, names);
    }
    let table = [0x5fu8, 0x5f, 0x2e, 0x53, 0x59, 0x4d, 0x44, 0x45, 0x46];
    let sorted_table = [
        0x5fu8,
        0x5f,
        0x2e,
        0x53,
        0x59,
        0x4d,
        0x44,
        0x45,
        0x46,
        0x20,
        0x53,
        0x4f,
        0x52,
        0x54,
        0x45,
        0x44,
    ];
    proof {
        assert(table@ =~= symdef());
        assert(sorted_table@ =~= symdef_sorted());
    }
    if format == Format::Bsd && ((len == 9 && bytes_at(bytes, at, &table)) || (len == 16
        && bytes_at(bytes, at, &sorted_table))) {
        return Step::Next(Cursor { at: data, format, names, padded: size % 2 != 0 });
    }
    step_behind(bytes, data, size, format, names)
}

fn step(bytes: &[u8], place: &Cursor) -> (r: Step)
    requires
        place.at <= bytes@.len(),
    ensures
        r@ == read_header(bytes@, place@),
{
    let mut at: usize = place.at;
    if place.padded && at < bytes.len() {
        if bytes[at] != 0x0a {
            return Step::Over;
        }
        at = at + 1;
    }
    if bytes.len() - at < 60 {
        return Step::Over;
    }
    let ghost header = bytes@.subrange(at as int, at + 60);
    proof {
        lemma_header_field(bytes@, at as int, 0, 16);
        lemma_header_field(bytes@, at as int, 1, 16);
        lemma_header_field(bytes@, at as int, 48, 58);
    }
    let ghost id = identifier(header.subrange(0, 16));
    let len: usize = identifier_len(bytes, at);
    let size: u64 = match number(bytes, at + 48, at + 58, 10) {
        Some(size) => size,
        None => {
            return Step::Over;
        },
    };
    if place.format == Format::Bsd || len == 0 {
        return step_plain(bytes, at, size, place.format, place.names);
    }
    assert(id[0] == bytes@[at as int] && id.last() == bytes@[at + len - 1]);
    if bytes[at] != 0x2f {
        let format = if bytes[at + len - 1] == 0x2f {
            Format::Gnu
        } else {
            place.format
        };
        return step_plain(bytes, at, size, format, place.names);
    }
    let data: usize = at + 60;
    if len == 1 {
        assert(id =~= seq![0x2fu8]);
        return step_behind(bytes, data, size, Format::Gnu, place.names);
    }
    if len == 2 && bytes[at + 1] == 0x2f {
        assert(id =~= seq![0x2fu8, 0x2f]);
        if size > isize::MAX as u64 {
            return Step::Broken;
        }
        if size > (bytes.len() - data) as u64 {
            return Step::Over;
        }
        return step_behind(bytes, data, size, Format::Gnu, size);
    }
    assert(id != seq![0x2fu8] && id != seq![0x2fu8, 0x2f]) by {
        if len == 2 {
            assert(id[1] == bytes@[at + 1]);
        }
    }
    match number(bytes, at + 1, at + 16, 10) {
        None => Step::Over,
        Some(start) => if start > place.names {
            Step::Broken
        } else {
            step_plain(bytes, at, size, Format::Gnu, place.names)
        },
    }
}

/// Cuts off what begins with the first header that the reader does not get past.
pub fn read_part(bytes: &[u8]) -> (r: &[u8])
    ensures
        r@ == readable_part(bytes@),
{
    let opening = [0x21u8, 0x3c, 0x61, 0x72, 0x63, 0x68, 0x3e, 0x0a];
    proof {
        assert(opening@ =~= magic());
        if magic().is_prefix_of(bytes@) {
            assert(bytes@.subrange(0, 8) =~= magic());
        }
    }
    if !bytes_at(bytes, 0, &opening) {
        return bytes;
    }
    let mut place = Cursor { at: 8, format: Format::Common, names: 0, padded: false };
    loop
        invariant
            place.at <= bytes@.len(),
            magic().is_prefix_of(bytes@),
            stops_at(bytes@, start()) == stops_at(bytes@, place@),
        decreases bytes@.len() - place.at,
    {
        proof {
            lemma_reads_forward(bytes@, place@);
        }
        match step(bytes, &place) {
            Step::Over => {
                assert(readable_part(bytes@) =~= bytes@);
                return bytes;
            },
            Step::Broken => {
                assert(readable_part(bytes@) =~= bytes@.subrange(0, place.at as int));
                return slice_subrange(bytes, 0, place.at);
            },
            Step::Next(next) => {
                place = next;
            },
        }
    }
}

/// Whether the bytes can be read entry by entry.
pub fn can_read(bytes: &[u8]) -> (r: bool)
    ensures
        r == readable(bytes@),
{
    proof {
        readable_part_can_be_read(bytes@);
    }
    read_part(bytes).len() == bytes.len()
}

/// A digit behind a number multiplies it by the radix and adds the digit.
pub proof fn a_digit_behind_digits(digits: Seq<char>, c: char, radix: int)
    ensures
        digits_value(Seq::empty(), radix) == 0,
        digits_value(digits.push(c), radix) == digits_value(digits, radix) * radix + (c as u32
            - 0x30),
{
    assert(digits.push(c).drop_last() =~= digits);
}

/// A field holds a number exactly where it is text that, without the white space at
/// its end and one plus sign in front of something, consists of digits, of which there
/// is one; and it is blank where nothing is left.
pub proof fn numbers_by_their_digits(field: Seq<u8>, digits: Seq<char>, radix: int)
    requires
        ({
            let shown = text::trimmed(decode_utf8(field));
            digits == if shown.len() > 1 && shown[0] == '+' {
                shown.skip(1)
            } else {
                shown
            }
        }),
    ensures
        number_in(field, radix) is Some <==> valid_utf8(field) && digits.len() > 0 && forall|i: int|
            0 <= i < digits.len() ==> 0x30 <= (#[trigger] digits[i]) as u32 && (digits[i] as u32)
                < 0x30 + radix,
        number_in(field, radix) is Some ==> number_in(field, radix) == Some(
            digits_value(digits, radix),
        ),
        is_blank(field) <==> valid_utf8(field) && digits.len() == 0,
{
    if forall|i: int| 0 <= i < digits.len() ==> is_digit(#[trigger] digits[i], radix) {
        assert forall|i: int| 0 <= i < digits.len() implies 0x30 <= (#[trigger] digits[i]) as u32
            && (digits[i] as u32) < 0x30 + radix by {
            assert(is_digit(digits[i], radix));
        }
    } else {
        let i = choose|i: int| 0 <= i < digits.len() && !is_digit(#[trigger] digits[i], radix);
        assert(!(0x30 <= digits[i] as u32 && (digits[i] as u32) < 0x30 + radix));
    }
}

/// An identifier is its field without the spaces at the end.
pub proof fn identifiers_lose_their_spaces(field: Seq<u8>)
    ensures
        identifier(field).len() <= field.len(),
        identifier(field) == field.take(identifier(field).len() as int),
        forall|i: int| identifier(field).len() <= i < field.len() ==> #[trigger] field[i] == 0x20,
        identifier(field).len() > 0 ==> identifier(field).last() != 0x20,
    decreases field.len(),
{
    if field.len() > 0 && field.last() == 0x20 {
        let rest = field.drop_last();
        identifiers_lose_their_spaces(rest);
        assert(identifier(field) =~= field.take(identifier(field).len() as int));
        assert forall|i: int| identifier(field).len() <= i < field.len() implies
            #[trigger] field[i] == 0x20 by {
            if i < rest.len() {
                assert(rest[i] == 0x20);
            }
        }
    } else {
        assert(identifier(field) =~= field.take(field.len() as int));
    }
}

/// What does not begin with the eight bytes of an archive is read as a whole.
pub proof fn what_is_no_archive_is_read(bytes: Seq<u8>)
    requires
        bytes.len() < 8 || bytes.take(8) != seq![
            0x21u8,
            0x3c,
            0x61,
            0x72,
            0x63,
            0x68,
            0x3e,
            0x0a,
        ],
    ensures
        readable(bytes),
        readable_part(bytes) == bytes,
{
    if magic().is_prefix_of(bytes) {
        assert(bytes.take(8) =~= magic());
    }
}

/// The reading of an archive starts behind its first eight bytes, and goes from header
/// to header until it is over or comes to one that it does not get past.
pub proof fn archives_are_read_from_header_to_header(bytes: Seq<u8>, place: Place)
    requires
        bytes.len() >= 8,
        bytes.take(8) == seq![0x21u8, 0x3c, 0x61, 0x72, 0x63, 0x68, 0x3e, 0x0a],
    ensures
        readable_part(bytes) == bytes.take(
            stops_at(bytes, Place { at: 8, format: Format::Common, names: 0, padded: false }),
        ),
        readable(bytes) <==> stops_at(
            bytes,
            Place { at: 8, format: Format::Common, names: 0, padded: false },
        ) == bytes.len(),
        read_header(bytes, place) is Over ==> stops_at(bytes, place) == bytes.len(),
        read_header(bytes, place) is Broken ==> stops_at(bytes, place) == place.at,
        read_header(bytes, place) matches Reading::Next(next) ==> stops_at(bytes, place)
            == stops_at(bytes, next),
{
    assert(magic().is_prefix_of(bytes));
    lemma_stops(bytes, start());
}

/// Reading is over where no whole header follows, where the padding byte is no line
/// feed, and where the size is no number.
pub proof fn reading_is_over_without_a_header(bytes: Seq<u8>, place: Place)
    requires
        0 <= place.at <= bytes.len(),
    ensures
        place.padded && place.at < bytes.len() && bytes[place.at] != 0x0a ==> read_header(
            bytes,
            place,
        ) is Over,
        (!place.padded || place.at == bytes.len()) && place.at + 60 > bytes.len() ==> read_header(
            bytes,
            place,
        ) is Over,
        place.padded && place.at + 61 > bytes.len() ==> read_header(bytes, place) is Over,
        !place.padded && place.at + 60 <= bytes.len() && number_in(
            bytes.subrange(place.at + 48, place.at + 58),
            10,
        ) is None ==> read_header(bytes, place) is Over,
        place.padded && place.at + 61 <= bytes.len() && number_in(
            bytes.subrange(place.at + 49, place.at + 59),
            10,
        ) is None ==> read_header(bytes, place) is Over,
{
    if !place.padded && place.at + 60 <= bytes.len() {
        lemma_header_field(bytes, place.at, 48, 58);
    }
    if place.padded && place.at + 61 <= bytes.len() {
        lemma_header_field(bytes, place.at + 1, 48, 58);
    }
}

/// A padding byte is passed: with it, a header is read as it is without it one byte
/// further.
pub proof fn padding_is_passed(bytes: Seq<u8>, place: Place)
    requires
        0 <= place.at < bytes.len(),
        place.padded,
        bytes[place.at] == 0x0a,
    ensures
        read_header(bytes, place) == read_header(
            bytes,
            Place { at: place.at + 1, format: place.format, names: place.names, padded: false },
        ),
{
}

/// The tables of a GNU archive: the symbol table is passed, the table of long names is
/// passed and gives the new size of the table, and an entry with an index into it is
/// passed where the index does not lie beyond it and the rest of its header is sound.
pub proof fn tables_of_gnu_archives(bytes: Seq<u8>, place: Place, size: int)
    requires
        0 <= place.at,
        place.at + 60 <= bytes.len(),
        !place.padded,
        place.format != Format::Bsd,
        number_in(bytes.subrange(place.at + 48, place.at + 58), 10) == Some(size),
    ensures
        ({
            let id = identifier(bytes.subrange(place.at, place.at + 16));
            let index = number_in(bytes.subrange(place.at + 1, place.at + 16), 10);
            let owner = bytes.subrange(place.at + 28, place.at + 34);
            let group = bytes.subrange(place.at + 34, place.at + 40);
            let numbers = number_in(bytes.subrange(place.at + 16, place.at + 28), 10) is Some && (
            number_in(owner, 10) is Some || is_blank(owner)) && (number_in(group, 10) is Some
                || is_blank(group)) && number_in(
                bytes.subrange(place.at + 40, place.at + 48),
                8,
            ) is Some;
            let end = place.at + 60 + size;
            let r = read_header(bytes, place);
            &&& id == seq![0x2fu8] ==> r == Reading::Next(
                Place {
                    at: if end <= bytes.len() {
                        end
                    } else {
                        bytes.len() as int
                    },
                    format: Format::Gnu,
                    names: place.names,
                    padded: size % 2 != 0,
                },
            )
            &&& id == seq![0x2fu8, 0x2f] && size > isize::MAX ==> r is Broken
            &&& id == seq![0x2fu8, 0x2f] && size <= isize::MAX && end > bytes.len() ==> r is Over
            &&& id == seq![0x2fu8, 0x2f] && size <= isize::MAX && end <= bytes.len() ==> r
                == Reading::Next(
                Place { at: end, format: Format::Gnu, names: size, padded: size % 2 != 0 },
            )
            &&& id.len() > 0 && id[0] == 0x2f && id != seq![0x2fu8] && id != seq![0x2fu8, 0x2f]
                ==> {
                &&& index is None ==> r is Over
                &&& index is Some && index->0 > place.names ==> r is Broken
                &&& index is Some && index->0 <= place.names && !numbers ==> r is Over
                &&& index is Some && index->0 <= place.names && numbers ==> r == Reading::Next(
                    Place {
                        at: if end <= bytes.len() {
                            end
                        } else {
                            bytes.len() as int
                        },
                        format: Format::Gnu,
                        names: place.names,
                        padded: size % 2 != 0,
                    },
                )
            }
        }),
{
    lemma_header_field(bytes, place.at, 0, 16);
    lemma_header_field(bytes, place.at, 1, 16);
    lemma_header_field(bytes, place.at, 16, 28);
    lemma_header_field(bytes, place.at, 28, 34);
    lemma_header_field(bytes, place.at, 34, 40);
    lemma_header_field(bytes, place.at, 40, 48);
    lemma_header_field(bytes, place.at, 48, 58);
}

/// Other headers, of which time stamp, owner, group and mode are numbers, except that
/// GNU archives may leave owner and group blank. A long BSD name comes in front of the
/// contents, which are passed; the symbol table of a BSD archive is not.
pub proof fn other_headers(bytes: Seq<u8>, place: Place, size: int)
    requires
        0 <= place.at,
        place.at + 60 <= bytes.len(),
        !place.padded,
        number_in(bytes.subrange(place.at + 48, place.at + 58), 10) == Some(size),
        place.format == Format::Bsd || identifier(
            bytes.subrange(place.at, place.at + 16),
        ).len() == 0 || bytes[place.at] != 0x2f,
    ensures
        ({
            let id = identifier(bytes.subrange(place.at, place.at + 16));
            let gnu = place.format == Format::Gnu || (place.format == Format::Common && id.len() > 0
                && id.last() == 0x2f);
            let owner = bytes.subrange(place.at + 28, place.at + 34);
            let group = bytes.subrange(place.at + 34, place.at + 40);
            let numbers = number_in(bytes.subrange(place.at + 16, place.at + 28), 10) is Some && (
            number_in(owner, 10) is Some || (gnu && is_blank(owner))) && (number_in(group, 10)
                is Some || (gnu && is_blank(group))) && number_in(
                bytes.subrange(place.at + 40, place.at + 48),
                8,
            ) is Some;
            let long_name = !gnu && id.len() >= 3 && id[0] == 0x23 && id[1] == 0x31 && id[2]
                == 0x2f;
            let name_len = number_in(bytes.subrange(place.at + 3, place.at + 16), 10);
            let data = place.at + 60;
            let end = if data + size <= bytes.len() {
                data + size
            } else {
                bytes.len() as int
            };
            let r = read_header(bytes, place);
            &&& !numbers ==> r is Over
            &&& numbers && long_name ==> {
                &&& name_len is None || size < name_len->0 ==> r is Over
                &&& name_len is Some && size >= name_len->0 && name_len->0 > isize::MAX ==> r
                    is Broken
                &&& name_len is Some && size >= name_len->0 && name_len->0 <= isize::MAX && data
                    + name_len->0 > bytes.len() ==> r is Over
                &&& name_len is Some && size >= name_len->0 && name_len->0 <= isize::MAX && data
                    + name_len->0 <= bytes.len() ==> r == Reading::Next(
                    Place {
                        at: end,
                        format: Format::Bsd,
                        names: place.names,
                        padded: (size - name_len->0) % 2 != 0,
                    },
                )
            }
            &&& numbers && !long_name ==> {
                let symbols = place.format == Format::Bsd && (id == seq![
                    0x5fu8,
                    0x5f,
                    0x2e,
                    0x53,
                    0x59,
                    0x4d,
                    0x44,
                    0x45,
                    0x46,
                ] || id == seq![
                    0x5fu8,
                    0x5f,
                    0x2e,
                    0x53,
                    0x59,
                    0x4d,
                    0x44,
                    0x45,
                    0x46,
                    0x20,
                    0x53,
                    0x4f,
                    0x52,
                    0x54,
                    0x45,
                    0x44,
                ]);
                r == Reading::Next(
                    Place {
                        at: if symbols {
                            data
                        } else {
                            end
                        },
                        format: if gnu {
                            Format::Gnu
                        } else {
                            place.format
                        },
                        names: place.names,
                        padded: size % 2 != 0,
                    },
                )
            }
        }),
{
    lemma_header_field(bytes, place.at, 0, 16);
    lemma_header_field(bytes, place.at, 3, 16);
    lemma_header_field(bytes, place.at, 16, 28);
    lemma_header_field(bytes, place.at, 28, 34);
    lemma_header_field(bytes, place.at, 34, 40);
    lemma_header_field(bytes, place.at, 40, 48);
    lemma_header_field(bytes, place.at, 48, 58);
    let field = bytes.subrange(place.at, place.at + 16);
    let id = identifier(field);
    identifiers_lose_their_spaces(field);
    if id.len() > 0 {
        assert(id[0] == field[0]);
    }
    let mark = seq![0x23u8, 0x31, 0x2f];
    if id.len() >= 3 && id[0] == 0x23 && id[1] == 0x31 && id[2] == 0x2f {
        assert(id.subrange(0, 3) =~= mark);
    }
    if mark.is_prefix_of(id) {
        assert(id[0] == mark[0] && id[1] == mark[1] && id[2] == mark[2]);
    }
    assert(symdef_sorted() =~= seq![
        0x5fu8,
        0x5f,
        0x2e,
        0x53,
        0x59,
        0x4d,
        0x44,
        0x45,
        0x46,
        0x20,
        0x53,
        0x4f,
        0x52,
        0x54,
        0x45,
        0x44,
    ]);
}

} // verus!
