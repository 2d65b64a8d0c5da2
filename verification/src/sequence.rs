//! Symbol sequences and their fixed-layout binary file: a 16-byte
//! identifier, a 96-byte class name, the number of symbols and the codebook
//! size as little-endian 32-bit numbers, then the symbols as little-endian
//! 16-bit numbers.

use vstd::prelude::*;
use vstd::slice::slice_subrange;
use vstd::utf8::{decode_utf8, encode_utf8, valid_utf8};
use crate::codec::{
    le_u16, le_u32, lemma_le_round_trip, read_u16_le, read_u32_le, u16_le_bytes, u32_le_bytes,
    write_u16_le, write_u32_le,
};
use crate::error::EcozError;
use crate::text::text_from_utf8;

verus! {

/// Width of the identifier field.
pub const FILE_IDENT_LEN: usize = 16;

/// Width of the class-name field.
pub const MAX_CLASS_NAME_LEN: usize = 96;

/// Width of everything before the symbols.
pub const HEADER_LEN: usize = 120;

/// A sequence of codebook symbols with the class it belongs to.
#[derive(Debug)]
pub struct Sequence {
    pub class_name: String,
    pub codebook_size: u32,
    pub symbols: Vec<u16>,
}

/// What a sequence holds.
pub struct SequenceView {
    pub class_name: Seq<char>,
    pub codebook_size: u32,
    pub symbols: Seq<u16>,
}

impl View for Sequence {
    type V = SequenceView;

    open spec fn view(&self) -> SequenceView {
        SequenceView {
            class_name: self.class_name@,
            codebook_size: self.codebook_size,
            symbols: self.symbols@,
        }
    }
}

/// The bytes `<sequence>` with which the identifier of a sequence file begins.
pub open spec fn marker() -> Seq<u8> {
    seq![60u8, 115u8, 101u8, 113u8, 117u8, 101u8, 110u8, 99u8, 101u8, 62u8]
}

/// Where the text of a fixed-width field ends: at the first zero byte from
/// `k` on, or one byte before the end of the field where there is none.
pub open spec fn text_end(field: Seq<u8>, k: int) -> int
    decreases field.len() - k,
{
    if k >= field.len() - 1 {
        field.len() - 1
    } else if field[k] == 0 {
        k
    } else {
        text_end(field, k + 1)
    }
}

/// The text of a fixed-width field: its bytes before the first zero byte.
pub open spec fn field_text(field: Seq<u8>) -> Seq<u8> {
    field.subrange(0, text_end(field, 0))
}

/// The text begins with the marker of sequence files.
pub open spec fn has_marker(text: Seq<u8>) -> bool {
    text.len() >= marker().len() && text.subrange(0, marker().len() as int) == marker()
}

/// The symbols that follow the header, `count` of them.
pub open spec fn symbols_at(bytes: Seq<u8>, count: int) -> Seq<u16> {
    Seq::new(
        count as nat,
        |k: int| le_u16(bytes.subrange(HEADER_LEN + 2 * k, HEADER_LEN + 2 * k + 2)) as u16,
    )
}

/// The sequence that a file holds, if the file is well formed: it is long
/// enough for its header and for the symbols that the header announces, its
/// identifier is text that begins with the marker, and its class name is
/// text.
pub open spec fn spec_load(bytes: Seq<u8>) -> Option<SequenceView> {
    let ident = field_text(bytes.subrange(0, 16));
    let name = field_text(bytes.subrange(16, 112));
    let count = le_u32(bytes.subrange(112, 116));
    if bytes.len() < HEADER_LEN {
        None
    } else if !has_marker(ident) || !valid_utf8(ident) || !valid_utf8(name) {
        None
    } else if bytes.len() < HEADER_LEN + 2 * count {
        None
    } else {
        Some(
            SequenceView {
                class_name: decode_utf8(name),
                codebook_size: le_u32(bytes.subrange(116, 120)) as u32,
                symbols: symbols_at(bytes, count),
            },
        )
    }
}

/// The text of the field of `width` bytes at `at`, where the field lies
/// inside the bytes and holds text.
pub open spec fn spec_read_text(bytes: Seq<u8>, at: int, width: int) -> Option<Seq<char>> {
    if at + width > bytes.len() {
        None
    } else if !valid_utf8(field_text(bytes.subrange(at, at + width))) {
        None
    } else {
        Some(decode_utf8(field_text(bytes.subrange(at, at + width))))
    }
}

/// The text of the field of `fixed_len` bytes at `at`: its bytes before the
/// first zero byte, which must be UTF-8.
fn read_fixed_size_string(bytes: &[u8], at: usize, fixed_len: usize) -> (r: Result<
    String,
    EcozError,
>)
    requires
        fixed_len >= 1,
    ensures
        match spec_read_text(bytes@, at as int, fixed_len as int) {
            Some(text) => r is Ok && r->Ok_0@ == text,
            None => r == Err::<String, EcozError>(EcozError::MalformedSequenceFile),
        },
{
    broadcast use vstd::utf8::encode_utf8_decode_utf8;

    let total: usize = bytes.len();
    if at > total || total - at < fixed_len {
        return Err(EcozError::MalformedSequenceFile);
    }
    let ghost field = bytes@.subrange(at as int, at + fixed_len);
    let mut text: Vec<u8> = Vec::new();
    let mut k: usize = 0;
    while k < fixed_len - 1 && bytes[at + k] != 0
        invariant
            total == bytes@.len(),
            fixed_len >= 1,
            at + fixed_len <= total,
            field == bytes@.subrange(at as int, at + fixed_len),
            k <= fixed_len - 1,
            text@ == field.subrange(0, k as int),
            text_end(field, 0) == text_end(field, k as int),
        decreases fixed_len - k,
    {
        text.push(bytes[at + k]);
        proof {
            assert(field[k as int] == bytes@[at + k]);
            assert(text@ =~= field.subrange(0, k + 1));
        }
        k += 1;
    }
    proof {
        if k < fixed_len - 1 {
            assert(field[k as int] == bytes@[at + k]);
        }
        assert(text_end(field, k as int) == k);
    }
    match text_from_utf8(text) {
        Some(text) => Ok(text),
        None => Err(EcozError::MalformedSequenceFile),
    }
}

/// The identifier of the file whose identifier field starts at `at`.
pub fn read_file_ident(bytes: &[u8], at: usize) -> (r: Result<String, EcozError>)
    ensures
        match spec_read_text(bytes@, at as int, FILE_IDENT_LEN as int) {
            Some(text) => r is Ok && r->Ok_0@ == text,
            None => r == Err::<String, EcozError>(EcozError::MalformedSequenceFile),
        },
{
    read_fixed_size_string(bytes, at, FILE_IDENT_LEN)
}

/// The class name whose field starts at `at`.
pub fn read_class_name(bytes: &[u8], at: usize) -> (r: Result<String, EcozError>)
    ensures
        match spec_read_text(bytes@, at as int, MAX_CLASS_NAME_LEN as int) {
            Some(text) => r is Ok && r->Ok_0@ == text,
            None => r == Err::<String, EcozError>(EcozError::MalformedSequenceFile),
        },
{
    read_fixed_size_string(bytes, at, MAX_CLASS_NAME_LEN)
}

/// The little-endian 32-bit number at `at`, where four bytes are left there.
pub fn read_u32(bytes: &[u8], at: usize) -> (r: Result<u32, EcozError>)
    ensures
        at + 4 <= bytes@.len() ==> r is Ok && r->Ok_0 == le_u32(bytes@.subrange(at as int, at + 4)),
        at + 4 > bytes@.len() ==> r == Err::<u32, EcozError>(EcozError::MalformedSequenceFile),
{
    let total: usize = bytes.len();
    if at > total || total - at < 4 {
        return Err(EcozError::MalformedSequenceFile);
    }
    Ok(read_u32_le(slice_subrange(bytes, at, at + 4)))
}

/// The little-endian 16-bit number at `at`, where two bytes are left there.
pub fn read_u16(bytes: &[u8], at: usize) -> (r: Result<u16, EcozError>)
    ensures
        at + 2 <= bytes@.len() ==> r is Ok && r->Ok_0 == le_u16(bytes@.subrange(at as int, at + 2)),
        at + 2 > bytes@.len() ==> r == Err::<u16, EcozError>(EcozError::MalformedSequenceFile),
{
    let total: usize = bytes.len();
    if at > total || total - at < 2 {
        return Err(EcozError::MalformedSequenceFile);
    }
    Ok(read_u16_le(slice_subrange(bytes, at, at + 2)))
}

/// The text begins with the marker of sequence files.
fn begins_with_marker(text: &[u8]) -> (r: bool)
    ensures
        r == has_marker(text@),
{
    if text.len() < 10 {
        return false;
    }
    let found = text[0] == 60 && text[1] == 115 && text[2] == 101 && text[3] == 113 && text[4]
        == 117 && text[5] == 101 && text[6] == 110 && text[7] == 99 && text[8] == 101 && text[9]
        == 62;
    proof {
        let head = text@.subrange(0, 10);
        if found {
            assert(head =~= marker());
        } else {
            assert(head[0] == text[0] && head[1] == text[1] && head[2] == text[2] && head[3]
                == text[3] && head[4] == text[4] && head[5] == text[5] && head[6] == text[6]
                && head[7] == text[7] && head[8] == text[8] && head[9] == text[9]);
        }
    }
    found
}

/// Reads a sequence from the bytes of a sequence file. A file that is cut
/// short, whose identifier does not begin with the marker, or whose
/// identifier or class name is no text, is refused.
pub fn load(bytes: &[u8]) -> (r: Result<Sequence, EcozError>)
    ensures
        match spec_load(bytes@) {
            Some(v) => r is Ok && r->Ok_0@ == v,
            None => r == Err::<Sequence, EcozError>(EcozError::MalformedSequenceFile),
        },
{
    broadcast use vstd::utf8::decode_utf8_encode_utf8;

    let ident = match read_file_ident(bytes, 0) {
        Ok(ident) => ident,
        Err(e) => {
            return Err(e);
        },
    };
    if !begins_with_marker(ident.as_str().as_bytes()) {
        return Err(EcozError::MalformedSequenceFile);
    }
    let class_name = match read_class_name(bytes, FILE_IDENT_LEN) {
        Ok(class_name) => class_name,
        Err(e) => {
            return Err(e);
        },
    };
    let count = match read_u32(bytes, 112) {
        Ok(count) => count,
        Err(e) => {
            return Err(e);
        },
    };
    let codebook_size = match read_u32(bytes, 116) {
        Ok(codebook_size) => codebook_size,
        Err(e) => {
            return Err(e);
        },
    };
    let mut symbols: Vec<u16> = Vec::new();
    let mut at: usize = HEADER_LEN;
    let mut k: u32 = 0;
    let total: usize = bytes.len();
    while k < count
        invariant
            total == bytes@.len(),
            count == le_u32(bytes@.subrange(112, 116)),
            k <= count,
            at == HEADER_LEN + 2 * k,
            at <= bytes@.len(),
            symbols.len() == k,
            forall|m: int|
                0 <= m < k ==> #[trigger] symbols[m] == le_u16(
                    bytes@.subrange(HEADER_LEN + 2 * m, HEADER_LEN + 2 * m + 2),
                ) as u16,
        decreases count - k,
    {
        let symbol = match read_u16(bytes, at) {
            Ok(symbol) => symbol,
            Err(e) => {
                return Err(e);
            },
        };
        symbols.push(symbol);
        at = at + 2;
        k += 1;
    }
    proof {
        assert(symbols@ =~= symbols_at(bytes@, count as int));
    }
    Ok(Sequence { class_name, codebook_size, symbols })
}

/// `n` zero bytes.
pub open spec fn zeros(n: int) -> Seq<u8> {
    Seq::new(n as nat, |i: int| 0u8)
}

/// The identifier field of a sequence file: the marker, padded with zeros.
pub open spec fn ident_field() -> Seq<u8> {
    marker() + zeros(FILE_IDENT_LEN - marker().len())
}

/// Number of bytes of a class name that its field keeps: all of them, or as
/// many as leave room for one zero byte.
pub open spec fn kept_len(name: Seq<u8>) -> int {
    if name.len() < MAX_CLASS_NAME_LEN {
        name.len() as int
    } else {
        MAX_CLASS_NAME_LEN - 1
    }
}

/// The class-name field: the bytes of the name that fit, padded with zeros to
/// the width of the field.
pub open spec fn name_field(name: Seq<u8>) -> Seq<u8> {
    name.subrange(0, kept_len(name)) + zeros(MAX_CLASS_NAME_LEN - kept_len(name))
}

/// The symbols, two bytes each, least significant byte first.
pub open spec fn symbol_bytes(symbols: Seq<u16>) -> Seq<u8>
    decreases symbols.len(),
{
    if symbols.len() == 0 {
        Seq::empty()
    } else {
        symbol_bytes(symbols.drop_last()) + u16_le_bytes(symbols.last())
    }
}

/// The bytes of the file that holds the sequence.
pub open spec fn spec_save(v: SequenceView) -> Seq<u8> {
    ident_field() + name_field(encode_utf8(v.class_name)) + u32_le_bytes(v.symbols.len() as u32)
        + u32_le_bytes(v.codebook_size) + symbol_bytes(v.symbols)
}

impl Sequence {
    /// The bytes of the file that holds this sequence. A class name longer
    /// than its field is cut to the 95 bytes that leave room for the closing
    /// zero byte.
    pub fn save(&self) -> (bytes: Vec<u8>)
        requires
            self.symbols.len() <= u32::MAX,
        ensures
            bytes@ == spec_save(self@),
    {
        let mut bytes: Vec<u8> = Vec::new();
        bytes.push(60);
        bytes.push(115);
        bytes.push(101);
        bytes.push(113);
        bytes.push(117);
        bytes.push(101);
        bytes.push(110);
        bytes.push(99);
        bytes.push(101);
        bytes.push(62);
        assert(bytes@ =~= marker() + zeros(0));
        let mut k: usize = 10;
        while k < FILE_IDENT_LEN
            invariant
                10 <= k <= FILE_IDENT_LEN,
                bytes@ == marker() + zeros(k - 10),
            decreases FILE_IDENT_LEN - k,
        {
            bytes.push(0);
            assert(bytes@ =~= marker() + zeros(k + 1 - 10));
            k += 1;
        }
        assert(bytes@ == ident_field());

        let name = self.class_name.as_str().as_bytes();
        let kept: usize = if name.len() < MAX_CLASS_NAME_LEN {
            name.len()
        } else {
            MAX_CLASS_NAME_LEN - 1
        };
        let mut k: usize = 0;
        while k < kept
            invariant
                k <= kept,
                kept == kept_len(name@),
                kept <= name@.len(),
                bytes@ == ident_field() + name@.subrange(0, k as int),
            decreases kept - k,
        {
            bytes.push(name[k]);
            assert(bytes@ =~= ident_field() + name@.subrange(0, k + 1));
            k += 1;
        }
        let mut k: usize = kept;
        while k < MAX_CLASS_NAME_LEN
            invariant
                kept <= k <= MAX_CLASS_NAME_LEN,
                kept == kept_len(name@),
                kept <= name@.len(),
                bytes@ == ident_field() + (name@.subrange(0, kept as int) + zeros(k - kept)),
            decreases MAX_CLASS_NAME_LEN - k,
        {
            bytes.push(0);
            assert(bytes@ =~= ident_field() + (name@.subrange(0, kept as int) + zeros(
                k + 1 - kept,
            )));
            k += 1;
        }
        assert(bytes@ =~= ident_field() + name_field(name@));

        let mut count = write_u32_le(self.symbols.len() as u32);
        bytes.append(&mut count);
        let mut codebook = write_u32_le(self.codebook_size);
        bytes.append(&mut codebook);
        let ghost header = bytes@;
        assert(header =~= ident_field() + name_field(name@) + u32_le_bytes(
            self.symbols.len() as u32,
        ) + u32_le_bytes(self.codebook_size));

        let mut k: usize = 0;
        while k < self.symbols.len()
            invariant
                k <= self.symbols.len(),
                bytes@ == header + symbol_bytes(self.symbols@.subrange(0, k as int)),
            decreases self.symbols.len() - k,
        {
            let mut symbol = write_u16_le(self.symbols[k]);
            bytes.append(&mut symbol);
            proof {
                let upto = self.symbols@.subrange(0, k + 1);
                assert(upto.drop_last() =~= self.symbols@.subrange(0, k as int));
                assert(upto.last() == self.symbols[k as int]);
                assert(bytes@ =~= header + symbol_bytes(upto));
            }
            k += 1;
        }
        proof {
            assert(self.symbols@.subrange(0, k as int) =~= self.symbols@);
        }
        bytes
    }
}

/// The text of a field ends at `t` where no byte before `t` is zero and `t`
/// is a zero byte or the last place of the field.
pub proof fn lemma_text_end(field: Seq<u8>, t: int, k: int)
    requires
        0 <= k <= t <= field.len() - 1,
        forall|i: int| 0 <= i < t ==> field[i] != 0,
        t == field.len() - 1 || field[t] == 0,
    ensures
        text_end(field, k) == t,
    decreases t - k,
{
    if k < t {
        lemma_text_end(field, t, k + 1);
    }
}

/// Each symbol takes two bytes, and they are the bytes of that symbol.
pub proof fn lemma_symbol_bytes(symbols: Seq<u16>, k: int)
    requires
        0 <= k < symbols.len(),
    ensures
        symbol_bytes(symbols).len() == 2 * symbols.len(),
        symbol_bytes(symbols).subrange(2 * k, 2 * k + 2) == u16_le_bytes(symbols[k]),
    decreases symbols.len(),
{
    lemma_symbol_bytes_len(symbols);
    lemma_symbol_bytes_len(symbols.drop_last());
    let all = symbol_bytes(symbols);
    if k == symbols.len() - 1 {
        assert(all.subrange(2 * k, 2 * k + 2) =~= u16_le_bytes(symbols[k]));
    } else {
        lemma_symbol_bytes(symbols.drop_last(), k);
        assert(all.subrange(2 * k, 2 * k + 2) =~= symbol_bytes(symbols.drop_last()).subrange(
            2 * k,
            2 * k + 2,
        ));
    }
}

/// Each symbol takes two bytes.
pub proof fn lemma_symbol_bytes_len(symbols: Seq<u16>)
    ensures
        symbol_bytes(symbols).len() == 2 * symbols.len(),
    decreases symbols.len(),
{
    if symbols.len() > 0 {
        lemma_symbol_bytes_len(symbols.drop_last());
    }
}

/// The marker is text.
pub proof fn lemma_marker_is_text()
    ensures
        valid_utf8(marker()),
{
    let chars = seq!['<', 's', 'e', 'q', 'u', 'e', 'n', 'c', 'e', '>'];
    assert(vstd::utf8::is_ascii_chars(chars));
    vstd::utf8::is_ascii_chars_encode_utf8(chars);
    vstd::utf8::encode_utf8_valid_utf8(chars);
    let bytes = encode_utf8(chars);
    assert(bytes.len() == 10);
    assert(chars[0] as u8 == bytes[0]);
    assert(chars[1] as u8 == bytes[1]);
    assert(chars[2] as u8 == bytes[2]);
    assert(chars[3] as u8 == bytes[3]);
    assert(chars[4] as u8 == bytes[4]);
    assert(chars[5] as u8 == bytes[5]);
    assert(chars[6] as u8 == bytes[6]);
    assert(chars[7] as u8 == bytes[7]);
    assert(chars[8] as u8 == bytes[8]);
    assert(chars[9] as u8 == bytes[9]);
    assert(bytes =~= marker());
}

/// Writing a sequence and reading it back gives the same sequence, provided
/// that its class name takes at most 95 bytes, none of them zero, and that
/// the number of its symbols fits in 32 bits.
pub proof fn lemma_round_trip(v: SequenceView)
    requires
        v.symbols.len() <= u32::MAX,
        encode_utf8(v.class_name).len() < MAX_CLASS_NAME_LEN,
        forall|i: int|
            0 <= i < encode_utf8(v.class_name).len() ==> encode_utf8(v.class_name)[i] != 0,
    ensures
        spec_load(spec_save(v)) == Some(v),
{
    let name = encode_utf8(v.class_name);
    let count = v.symbols.len() as u32;
    let bytes = spec_save(v);
    lemma_le_round_trip(0, count);
    lemma_le_round_trip(0, v.codebook_size);
    lemma_symbol_bytes_len(v.symbols);
    lemma_marker_is_text();
    vstd::utf8::encode_utf8_valid_utf8(v.class_name);
    vstd::utf8::encode_utf8_decode_utf8(v.class_name);

    assert(ident_field().len() == 16);
    assert(name_field(name).len() == 96);
    assert(bytes.len() == HEADER_LEN + 2 * v.symbols.len());
    assert(bytes.subrange(0, 16) =~= ident_field());
    assert(bytes.subrange(16, 112) =~= name_field(name));
    assert(bytes.subrange(112, 116) =~= u32_le_bytes(count));
    assert(bytes.subrange(116, 120) =~= u32_le_bytes(v.codebook_size));

    lemma_text_end(ident_field(), 10, 0);
    assert(field_text(ident_field()) =~= marker());
    assert(marker().subrange(0, 10) =~= marker());
    lemma_text_end(name_field(name), name.len() as int, 0);
    assert(field_text(name_field(name)) =~= name);

    assert(symbols_at(bytes, count as int) =~= v.symbols) by {
        assert forall|k: int| 0 <= k < v.symbols.len() implies symbols_at(bytes, count as int)[k]
            == v.symbols[k] by {
            lemma_symbol_bytes(v.symbols, k);
            assert(bytes.subrange(HEADER_LEN + 2 * k, HEADER_LEN + 2 * k + 2) =~= symbol_bytes(
                v.symbols,
            ).subrange(2 * k, 2 * k + 2));
            lemma_le_round_trip(v.symbols[k], 0);
        }
    }
}

/// A class name longer than its field is kept up to its 95th byte.
pub proof fn lemma_long_name_is_cut(name: Seq<u8>)
    requires
        name.len() >= MAX_CLASS_NAME_LEN,
        forall|i: int| 0 <= i < MAX_CLASS_NAME_LEN - 1 ==> name[i] != 0,
    ensures
        name_field(name).len() == MAX_CLASS_NAME_LEN,
        field_text(name_field(name)) == name.subrange(0, MAX_CLASS_NAME_LEN - 1),
{
    lemma_text_end(name_field(name), MAX_CLASS_NAME_LEN - 1, 0);
    assert(field_text(name_field(name)) =~= name.subrange(0, MAX_CLASS_NAME_LEN - 1));
}

} // verus!
