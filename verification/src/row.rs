//! The row codec: a fixed-schema record (id, username, email) and its
//! fixed-width byte encoding.  A serialized row is always exactly
//! `ROW_SIZE` bytes: the id as 4 bytes big-endian, then the username
//! zero-padded to 32 bytes, then the email zero-padded to 255 bytes.

use vstd::prelude::*;
use vstd::pervasive::unreached;
use vstd::slice::{slice_subrange, slice_to_vec};
use vstd::utf8::{decode_utf8, encode_utf8, valid_utf8};

verus! {

pub const COLUMN_USERNAME_SIZE: usize = 32;

pub const COLUMN_EMAIL_SIZE: usize = 255;

pub const ID_SIZE: usize = 4;

pub const USERNAME_SIZE: usize = 32;

pub const EMAIL_SIZE: usize = 255;

pub const ID_OFFSET: usize = 0;

pub const USERNAME_OFFSET: usize = ID_OFFSET + ID_SIZE;

pub const EMAIL_OFFSET: usize = USERNAME_OFFSET + USERNAME_SIZE;

pub const ROW_SIZE: usize = ID_SIZE + USERNAME_SIZE + EMAIL_SIZE;

/// One record of the table: the text fields are stored already padded to
/// their fixed widths, so a well-formed row serializes without any
/// length checks.
#[derive(Clone, Debug)]
pub struct Row {
    pub id: u32,
    pub username: Vec<u8>,
    pub email: Vec<u8>,
}

/// The mathematical value of a `Row`: the id and the two padded byte
/// fields as sequences.
pub struct RowView {
    pub id: u32,
    pub username: Seq<u8>,
    pub email: Seq<u8>,
}

impl RowView {
    pub open spec fn wf(self) -> bool {
        self.username.len() == USERNAME_SIZE && self.email.len() == EMAIL_SIZE
    }
}

impl View for Row {
    type V = RowView;

    open spec fn view(&self) -> RowView {
        RowView { id: self.id, username: self.username@, email: self.email@ }
    }
}

/// The 4-byte big-endian encoding of a 32-bit integer.
pub open spec fn spec_u32_to_be(v: u32) -> Seq<u8> {
    seq![
        ((v & 0xff000000) >> 24) as u8,
        ((v & 0x00ff0000) >> 16) as u8,
        ((v & 0x0000ff00) >> 8) as u8,
        (v & 0x000000ff) as u8,
    ]
}

/// The 32-bit integer read big-endian from the first 4 bytes of `s`.
pub open spec fn spec_u32_from_be(s: Seq<u8>) -> u32 {
    (((s[0] as u32) << 24) + ((s[1] as u32) << 16) + ((s[2] as u32) << 8) + (s[3] as u32)) as u32
}

/// `b` extended with zero bytes up to `width`.
pub open spec fn spec_zero_pad(b: Seq<u8>, width: nat) -> Seq<u8> {
    b + Seq::new((width - b.len()) as nat, |i: int| 0u8)
}

/// The fixed-width encoding of a row: big-endian id, then the two
/// padded text fields.
pub open spec fn spec_serialize(r: RowView) -> Seq<u8> {
    spec_u32_to_be(r.id) + r.username + r.email
}

/// The row read back from a `ROW_SIZE`-byte block.
pub open spec fn spec_deserialize(b: Seq<u8>) -> RowView {
    RowView {
        id: spec_u32_from_be(b.subrange(ID_OFFSET as int, USERNAME_OFFSET as int)),
        username: b.subrange(USERNAME_OFFSET as int, EMAIL_OFFSET as int),
        email: b.subrange(EMAIL_OFFSET as int, ROW_SIZE as int),
    }
}

/// Decoding the 4-byte encoding of `v` gives back `v`, for the whole
/// `u32` range.
pub proof fn lemma_u32_be_round_trip(v: u32)
    ensures
        spec_u32_from_be(spec_u32_to_be(v)) == v,
{
    assert((((((v & 0xff000000) >> 24) as u8) as u32) << 24) + (((((v & 0x00ff0000) >> 16) as u8)
        as u32) << 16) + (((((v & 0x0000ff00) >> 8) as u8) as u32) << 8) + (((v & 0x000000ff) as u8)
        as u32) == v) by (bit_vector);
}

/// Decoding an encoded well-formed row gives back the row: id and both
/// text fields, padding included.
pub proof fn lemma_row_round_trip(r: RowView)
    requires
        r.wf(),
    ensures
        spec_deserialize(spec_serialize(r)) == r,
{
    let b = spec_serialize(r);
    assert(b.subrange(ID_OFFSET as int, USERNAME_OFFSET as int) =~= spec_u32_to_be(r.id));
    assert(b.subrange(USERNAME_OFFSET as int, EMAIL_OFFSET as int) =~= r.username);
    assert(b.subrange(EMAIL_OFFSET as int, ROW_SIZE as int) =~= r.email);
    lemma_u32_be_round_trip(r.id);
}

/// Splits a 32-bit integer into its 4 big-endian bytes.
pub fn u32_to_u8(v: u32) -> (r: Vec<u8>)
    ensures
        r@ == spec_u32_to_be(v),
        r@.len() == ID_SIZE,
{
    let first = ((v & 0xff000000) >> 24) as u8;
    let second = ((v & 0x00ff0000) >> 16) as u8;
    let third = ((v & 0x0000ff00) >> 8) as u8;
    let fourth = (v & 0x000000ff) as u8;

    let mut res: Vec<u8> = Vec::new();
    res.push(first);
    res.push(second);
    res.push(third);
    res.push(fourth);

    proof {
        assert(res@ =~= spec_u32_to_be(v));
    }
    res
}

/// Reassembles a 32-bit integer from its 4 big-endian bytes.
pub fn u8_to_u32(bytes: Vec<u8>) -> (r: u32)
    requires
        bytes@.len() == ID_SIZE,
    ensures
        r == spec_u32_from_be(bytes@),
{
    let b0 = bytes[0];
    let b1 = bytes[1];
    let b2 = bytes[2];
    let b3 = bytes[3];

    proof {
        assert(((b0 as u32) << 24) <= 0xff000000u32 && ((b1 as u32) << 16) <= 0x00ff0000u32 && ((b2
            as u32) << 8) <= 0x0000ff00u32) by (bit_vector);
    }

    let mut acc: u32 = 0;
    acc += (b0 as u32) << 24;
    acc += (b1 as u32) << 16;
    acc += (b2 as u32) << 8;
    acc += b3 as u32;

    acc
}

fn zero_pad(b: Vec<u8>, width: usize) -> (r: Vec<u8>)
    requires
        b@.len() <= width,
    ensures
        r@ == spec_zero_pad(b@, width as nat),
        r@.len() == width,
{
    let ghost b0 = b@;
    let mut r = b;
    while r.len() < width
        invariant
            b0.len() <= r@.len() <= width,
            r@ == spec_zero_pad(b0, r@.len() as nat),
        decreases width - r@.len(),
    {
        r.push(0);
        proof {
            assert(r@ =~= spec_zero_pad(b0, r@.len() as nat));
        }
    }
    r
}

/// The index of the first zero byte of `b`, or its length when there
/// is none: where a stored text field ends.
pub open spec fn spec_first_nul(b: Seq<u8>) -> int
    decreases b.len(),
{
    if b.len() == 0 {
        0
    } else if b[0] == 0 {
        0
    } else {
        1 + spec_first_nul(b.skip(1))
    }
}

/// The prefix of `b` before its first zero byte: the text of a stored
/// field, without the padding.
pub open spec fn spec_text_prefix(b: Seq<u8>) -> Seq<u8> {
    b.take(spec_first_nul(b))
}

/// A scan that stops at the first zero byte (or the end) finds exactly
/// `spec_first_nul`.
proof fn lemma_first_nul_is(b: Seq<u8>, k: int)
    requires
        0 <= k <= b.len(),
        forall|j: int| 0 <= j < k ==> b[j] != 0,
        k < b.len() ==> b[k] == 0,
    ensures
        spec_first_nul(b) == k,
    decreases b.len(),
{
    if b.len() > 0 && b[0] != 0 {
        lemma_first_nul_is(b.skip(1), k - 1);
    }
}

/// Relies on `String::from_utf8`: it returns the string holding
/// exactly the given bytes when they are valid UTF-8, and an error
/// otherwise.  `decode_utf8` and `valid_utf8` are vstd's model of that
/// encoding.
#[verifier::external_body]
fn utf8_to_string(bytes: Vec<u8>) -> (r: Option<String>)
    ensures
        (match r {
            Some(s) => valid_utf8(bytes@) && s@ == decode_utf8(bytes@),
            None => !valid_utf8(bytes@),
        }),
{
    String::from_utf8(bytes).ok()
}

/// Copies the bytes of `bytes` before its first zero byte.
fn bytes_before_nul(bytes: &Vec<u8>) -> (r: Vec<u8>)
    ensures
        r@ == spec_text_prefix(bytes@),
{
    let mut i: usize = 0;
    while i < bytes.len() && bytes[i] != 0
        invariant
            i <= bytes@.len(),
            forall|j: int| 0 <= j < i ==> bytes@[j] != 0,
        decreases bytes@.len() - i,
    {
        i += 1;
    }
    proof {
        lemma_first_nul_is(bytes@, i as int);
    }
    slice_to_vec(slice_subrange(bytes.as_slice(), 0, i))
}

/// Recovers the text stored in a field buffer: the bytes up to the
/// first zero byte, decoded as UTF-8.  Text that is not valid UTF-8
/// signals on-disk corruption and is reported as `None`.
pub fn try_string_from_serialized(bytes: Vec<u8>) -> (r: Option<String>)
    ensures
        valid_utf8(spec_text_prefix(bytes@)) ==> (r matches Some(s) && s@ == decode_utf8(
            spec_text_prefix(bytes@),
        )),
        !valid_utf8(spec_text_prefix(bytes@)) ==> r is None,
{
    let prefix = bytes_before_nul(&bytes);
    utf8_to_string(prefix)
}

/// Recovers the text stored in a field buffer, for callers that know
/// the field is uncorrupted.
pub fn string_from_serialized(bytes: Vec<u8>) -> (r: String)
    requires
        valid_utf8(spec_text_prefix(bytes@)),
    ensures
        r@ == decode_utf8(spec_text_prefix(bytes@)),
{
    match try_string_from_serialized(bytes) {
        Some(s) => s,
        None => unreached(),
    }
}

impl Row {
    /// A row is well-formed when both text fields already have their
    /// fixed width.
    pub open spec fn wf(self) -> bool {
        self@.wf()
    }

    /// Builds a row from its id and the two text fields, padding each
    /// field with zero bytes to its fixed width.
    pub fn new(id: u32, username: String, email: String) -> (r: Row)
        requires
            encode_utf8(username@).len() <= USERNAME_SIZE,
            encode_utf8(email@).len() <= EMAIL_SIZE,
        ensures
            r.wf(),
            r@ == (RowView {
                id: id,
                username: spec_zero_pad(encode_utf8(username@), USERNAME_SIZE as nat),
                email: spec_zero_pad(encode_utf8(email@), EMAIL_SIZE as nat),
            }),
    {
        let ub = slice_to_vec(username.as_str().as_bytes());
        let eb = slice_to_vec(email.as_str().as_bytes());
        Row::from_bytes(id, ub, eb)
    }

    /// Builds a row from its id and the raw bytes of the two text
    /// fields, padding each with zero bytes to its fixed width.
    pub fn from_bytes(id: u32, username: Vec<u8>, email: Vec<u8>) -> (r: Row)
        requires
            username@.len() <= USERNAME_SIZE,
            email@.len() <= EMAIL_SIZE,
        ensures
            r.wf(),
            r@ == (RowView {
                id: id,
                username: spec_zero_pad(username@, USERNAME_SIZE as nat),
                email: spec_zero_pad(email@, EMAIL_SIZE as nat),
            }),
    {
        let u = zero_pad(username, USERNAME_SIZE);
        let e = zero_pad(email, EMAIL_SIZE);
        Row { id, username: u, email: e }
    }

    /// Encodes the row as its fixed-width `ROW_SIZE`-byte block.
    pub fn serialize_row(&self) -> (r: Vec<u8>)
        requires
            self.wf(),
        ensures
            r@ == spec_serialize(self@),
            r@.len() == ROW_SIZE,
    {
        let mut serialized: Vec<u8> = Vec::new();

        let mut id_bytes = u32_to_u8(self.id);
        serialized.append(&mut id_bytes);
        let mut u = slice_to_vec(self.username.as_slice());
        serialized.append(&mut u);
        let mut e = slice_to_vec(self.email.as_slice());
        serialized.append(&mut e);

        proof {
            assert(serialized@ =~= spec_serialize(self@));
        }
        serialized
    }

    /// Decodes a `ROW_SIZE`-byte block back into a row.
    pub fn deserialize_row(v: Vec<u8>) -> (r: Row)
        requires
            v@.len() == ROW_SIZE,
        ensures
            r.wf(),
            r@ == spec_deserialize(v@),
    {
        let id_bytes = slice_to_vec(slice_subrange(v.as_slice(), ID_OFFSET, USERNAME_OFFSET));
        let id = u8_to_u32(id_bytes);
        let username = slice_to_vec(slice_subrange(v.as_slice(), USERNAME_OFFSET, EMAIL_OFFSET));
        let email = slice_to_vec(slice_subrange(v.as_slice(), EMAIL_OFFSET, ROW_SIZE));

        Row { id, username, email }
    }
}

} // verus!
