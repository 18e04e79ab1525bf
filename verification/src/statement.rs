//! The command parser: turns one line of input into a logical request,
//! either an insert carrying the row to store or a select.  A command
//! is split into space-separated fields; an insert needs an id and the
//! two text fields, with the same length limits the row codec has.

use vstd::prelude::*;
use vstd::pervasive::unreached;
use vstd::slice::slice_to_vec;
use vstd::string::StringSliceAdditionalSpecFns;
use crate::row::{
    spec_zero_pad, Row, RowView, COLUMN_EMAIL_SIZE, COLUMN_USERNAME_SIZE, EMAIL_SIZE,
    USERNAME_SIZE,
};

verus! {

#[derive(Debug, PartialEq, Eq, Clone, Structural)]
pub enum StatementType {
    Insert,
    Select,
}

/// A parsed request: its kind, and for an insert the row to store.
#[derive(Debug)]
pub struct Statement {
    pub statement_type: StatementType,
    pub row_to_insert: Option<Row>,
}

#[derive(Debug, PartialEq, Eq, Structural)]
pub enum PrepareError {
    SyntaxErr,
    UnrecognizedStatement,
    InsertError,
}

/// The UTF-8 bytes of the keyword `insert`.
pub open spec fn spec_insert_keyword() -> Seq<u8> {
    seq![105u8, 110u8, 115u8, 101u8, 114u8, 116u8]
}

/// The UTF-8 bytes of the keyword `select`.
pub open spec fn spec_select_keyword() -> Seq<u8> {
    seq![115u8, 101u8, 108u8, 101u8, 99u8, 116u8]
}

/// Whether `b` begins with `prefix`.
pub open spec fn spec_starts_with(b: Seq<u8>, prefix: Seq<u8>) -> bool {
    b.len() >= prefix.len() && b.take(prefix.len() as int) == prefix
}

/// The fields of `b` around single space bytes, empty fields included:
/// the model of splitting a command line on one space.
pub open spec fn spec_split_fields(b: Seq<u8>) -> Seq<Seq<u8>>
    decreases b.len(),
{
    if b.len() == 0 {
        seq![Seq::<u8>::empty()]
    } else if b[0] == 32 {
        seq![Seq::<u8>::empty()] + spec_split_fields(b.skip(1))
    } else {
        let rest = spec_split_fields(b.skip(1));
        seq![seq![b[0]] + rest[0]] + rest.skip(1)
    }
}

/// Splitting always yields at least the field that is open at the end.
pub proof fn lemma_split_fields_len(b: Seq<u8>)
    ensures
        spec_split_fields(b).len() >= 1,
    decreases b.len(),
{
    if b.len() > 0 {
        lemma_split_fields_len(b.skip(1));
    }
}

/// The arguments of an insert command: every field after the command
/// word itself.
pub open spec fn spec_insert_fields(b: Seq<u8>) -> Seq<Seq<u8>> {
    spec_split_fields(b).skip(1)
}

/// Whether `b` is one or more ASCII decimal digits.
pub open spec fn spec_is_digits(b: Seq<u8>) -> bool {
    b.len() > 0 && forall|i: int| 0 <= i < b.len() ==> 48 <= #[trigger] b[i] <= 57
}

/// The number the ASCII digits of `b` denote.
pub open spec fn spec_digits_value(b: Seq<u8>) -> int
    decreases b.len(),
{
    if b.len() == 0 {
        0
    } else {
        spec_digits_value(b.drop_last()) * 10 + (b.last() - 48)
    }
}

/// The id field of a well-shaped insert command parses as a `u32`;
/// commands outside this are rejected before the id is read, so the
/// condition holds vacuously for them.
pub open spec fn spec_id_field_ok(b: Seq<u8>) -> bool {
    (spec_starts_with(b, spec_insert_keyword()) && spec_insert_fields(b).len() >= 3
        && spec_insert_fields(b)[1].len() <= COLUMN_USERNAME_SIZE && spec_insert_fields(
        b,
    )[2].len() <= COLUMN_EMAIL_SIZE) ==> (spec_is_digits(spec_insert_fields(b)[0])
        && spec_digits_value(spec_insert_fields(b)[0]) <= u32::MAX)
}

/// The views of a vector of byte fields.
pub open spec fn spec_field_views(fields: Seq<Vec<u8>>) -> Seq<Seq<u8>> {
    fields.map_values(|f: Vec<u8>| f@)
}

/// A digit string never denotes less than any of its prefixes, and
/// never a negative number.
proof fn lemma_digits_prefix_le(b: Seq<u8>, j: int)
    requires
        forall|i: int| 0 <= i < b.len() ==> 48 <= #[trigger] b[i] <= 57,
        0 <= j <= b.len(),
    ensures
        0 <= spec_digits_value(b.take(j)),
        spec_digits_value(b.take(j)) <= spec_digits_value(b),
    decreases b.len(),
{
    if b.len() == 0 {
        assert(b.take(j) =~= b);
    } else if j == b.len() {
        assert(b.take(j) =~= b);
        lemma_digits_prefix_le(b.drop_last(), j - 1);
        assert(b.drop_last().take(j - 1) =~= b.drop_last());
    } else {
        lemma_digits_prefix_le(b.drop_last(), j);
        assert(b.drop_last().take(j) =~= b.take(j));
    }
}

/// Builds the byte vector of the keyword `insert`.
fn keyword_insert() -> (v: Vec<u8>)
    ensures
        v@ == spec_insert_keyword(),
{
    let mut v: Vec<u8> = Vec::new();
    v.push(105);
    v.push(110);
    v.push(115);
    v.push(101);
    v.push(114);
    v.push(116);
    proof {
        assert(v@ =~= spec_insert_keyword());
    }
    v
}

/// Builds the byte vector of the keyword `select`.
fn keyword_select() -> (v: Vec<u8>)
    ensures
        v@ == spec_select_keyword(),
{
    let mut v: Vec<u8> = Vec::new();
    v.push(115);
    v.push(101);
    v.push(108);
    v.push(101);
    v.push(99);
    v.push(116);
    proof {
        assert(v@ =~= spec_select_keyword());
    }
    v
}

/// Whether `b` begins with `p`.
fn starts_with_bytes(b: &Vec<u8>, p: &Vec<u8>) -> (r: bool)
    ensures
        r == spec_starts_with(b@, p@),
{
    if b.len() < p.len() {
        return false;
    }
    let mut i: usize = 0;
    while i < p.len()
        invariant
            i <= p@.len(),
            b@.len() >= p@.len(),
            forall|j: int| 0 <= j < i ==> b@[j] == p@[j],
        decreases p@.len() - i,
    {
        if b[i] != p[i] {
            proof {
                assert(b@.take(p@.len() as int)[i as int] != p@[i as int]);
            }
            return false;
        }
        i += 1;
    }
    proof {
        assert(b@.take(p@.len() as int) =~= p@);
    }
    true
}

/// Splits `bytes` into its fields around single space bytes.
pub fn split_fields(bytes: &Vec<u8>) -> (fields: Vec<Vec<u8>>)
    ensures
        spec_field_views(fields@) == spec_split_fields(bytes@),
        fields@.len() >= 1,
{
    let mut done: Vec<Vec<u8>> = Vec::new();
    let mut cur: Vec<u8> = Vec::new();
    let mut i: usize = 0;

    proof {
        lemma_split_fields_len(bytes@);
        assert(bytes@.skip(0) =~= bytes@);
        assert(cur@ + spec_split_fields(bytes@)[0] =~= spec_split_fields(bytes@)[0]);
        assert(spec_split_fields(bytes@) =~= spec_field_views(done@) + seq![
            cur@ + spec_split_fields(bytes@.skip(0))[0],
        ] + spec_split_fields(bytes@.skip(0)).skip(1));
    }
    while i < bytes.len()
        invariant
            i <= bytes@.len(),
            spec_split_fields(bytes@) == spec_field_views(done@) + seq![
                cur@ + spec_split_fields(bytes@.skip(i as int))[0],
            ] + spec_split_fields(bytes@.skip(i as int)).skip(1),
            spec_split_fields(bytes@.skip(i as int)).len() >= 1,
        decreases bytes@.len() - i,
    {
        let ghost pre = bytes@.skip(i as int);
        let ghost done0 = done@;
        let ghost cur0 = cur@;
        let b = bytes[i];
        proof {
            assert(pre[0] == bytes@[i as int]);
            assert(pre.skip(1) =~= bytes@.skip(i as int + 1));
            lemma_split_fields_len(bytes@.skip(i as int + 1));
        }
        if b == 32 {
            done.push(cur);
            cur = Vec::new();
            proof {
                let rest = spec_split_fields(bytes@.skip(i as int + 1));
                assert(spec_split_fields(pre) == seq![Seq::<u8>::empty()] + rest);
                assert(cur0 + spec_split_fields(pre)[0] =~= cur0);
                assert(spec_field_views(done@) =~= spec_field_views(done0).push(cur0));
                assert(spec_split_fields(pre).skip(1) =~= rest);
                assert(rest =~= seq![rest[0]] + rest.skip(1));
                assert(cur@ + rest[0] =~= rest[0]);
                assert(spec_split_fields(bytes@) =~= spec_field_views(done@) + seq![
                    cur@ + rest[0],
                ] + rest.skip(1));
            }
        } else {
            cur.push(b);
            proof {
                let rest = spec_split_fields(bytes@.skip(i as int + 1));
                assert(spec_split_fields(pre) == seq![seq![pre[0]] + rest[0]] + rest.skip(1));
                assert(spec_split_fields(pre)[0] =~= seq![pre[0]] + rest[0]);
                assert(spec_split_fields(pre).skip(1) =~= rest.skip(1));
                assert(cur@ + rest[0] =~= cur0 + (seq![pre[0]] + rest[0]));
                assert(spec_split_fields(bytes@) =~= spec_field_views(done@) + seq![
                    cur@ + rest[0],
                ] + rest.skip(1));
            }
        }
        i += 1;
    }
    let ghost done0 = done@;
    let ghost cur0 = cur@;
    proof {
        assert(bytes@.skip(i as int) =~= Seq::<u8>::empty());
        assert(spec_split_fields(bytes@.skip(i as int)) == seq![Seq::<u8>::empty()]);
        assert(cur0 + spec_split_fields(bytes@.skip(i as int))[0] =~= cur0);
    }
    done.push(cur);
    proof {
        assert(spec_field_views(done@) =~= spec_field_views(done0).push(cur0));
        assert(spec_field_views(done@) =~= spec_split_fields(bytes@));
    }
    done
}

/// Parses `b` as an unsigned decimal number: the digits' value when
/// `b` is all digits and the value fits a `u32`, nothing otherwise.
pub fn parse_u32(b: &Vec<u8>) -> (res: Option<u32>)
    ensures
        res is Some <==> spec_is_digits(b@) && spec_digits_value(b@) <= u32::MAX,
        res matches Some(v) ==> v == spec_digits_value(b@),
{
    if b.len() == 0 {
        return None;
    }
    let mut acc: u32 = 0;
    let mut i: usize = 0;
    while i < b.len()
        invariant
            i <= b@.len(),
            b@.len() > 0,
            forall|j: int| 0 <= j < i ==> 48 <= #[trigger] b@[j] <= 57,
            acc == spec_digits_value(b@.take(i as int)),
        decreases b@.len() - i,
    {
        let c = b[i];
        if c < 48 || c > 57 {
            return None;
        }
        let d = (c - 48) as u32;
        proof {
            assert(b@.take(i as int + 1).drop_last() =~= b@.take(i as int));
            assert(b@.take(i as int + 1).last() == b@[i as int]);
        }
        if acc > (u32::MAX - d) / 10 {
            proof {
                assert(acc as int * 10 + d > u32::MAX) by {
                    let m = (u32::MAX - d) as int;
                    vstd::arithmetic::div_mod::lemma_fundamental_div_mod(m, 10);
                    assert(acc as int >= m / 10 + 1);
                    assert((m / 10 + 1) * 10 == (m / 10) * 10 + 10);
                }
                if spec_is_digits(b@) {
                    lemma_digits_prefix_le(b@, i as int + 1);
                }
            }
            return None;
        }
        acc = acc * 10 + d;
        i += 1;
    }
    proof {
        assert(b@.take(i as int) =~= b@);
    }
    Some(acc)
}

/// Parses one command line.  An insert must carry at least an id and
/// the two text fields, the text fields must fit the row's fixed
/// widths, and the row is built from them; a select carries nothing.
/// Anything else is unrecognized.
pub fn prepare_statement(command: &str) -> (res: Result<Statement, PrepareError>)
    requires
        spec_id_field_ok(command.spec_bytes()),
    ensures
        ({
            let b = command.spec_bytes();
            let f = spec_insert_fields(b);
            &&& (spec_starts_with(b, spec_insert_keyword()) && f.len() < 3) ==> res == Err::<
                Statement,
                PrepareError,
            >(PrepareError::SyntaxErr)
            &&& (spec_starts_with(b, spec_insert_keyword()) && f.len() >= 3 && (f[1].len()
                > COLUMN_USERNAME_SIZE || f[2].len() > COLUMN_EMAIL_SIZE)) ==> res == Err::<
                Statement,
                PrepareError,
            >(PrepareError::InsertError)
            &&& (spec_starts_with(b, spec_insert_keyword()) && f.len() >= 3 && f[1].len()
                <= COLUMN_USERNAME_SIZE && f[2].len() <= COLUMN_EMAIL_SIZE) ==> ({
                &&& res is Ok
                &&& res->Ok_0.statement_type == StatementType::Insert
                &&& (res->Ok_0.row_to_insert matches Some(row) && row.wf() && row@ == (RowView {
                    id: spec_digits_value(f[0]) as u32,
                    username: spec_zero_pad(f[1], USERNAME_SIZE as nat),
                    email: spec_zero_pad(f[2], EMAIL_SIZE as nat),
                }))
            })
            &&& (!spec_starts_with(b, spec_insert_keyword()) && spec_starts_with(
                b,
                spec_select_keyword(),
            )) ==> ({
                &&& res is Ok
                &&& res->Ok_0.statement_type == StatementType::Select
                &&& res->Ok_0.row_to_insert is None
            })
            &&& (!spec_starts_with(b, spec_insert_keyword()) && !spec_starts_with(
                b,
                spec_select_keyword(),
            )) ==> res == Err::<Statement, PrepareError>(PrepareError::UnrecognizedStatement)
        }),
{
    let bytes = slice_to_vec(command.as_bytes());
    let insert_kw = keyword_insert();

    if starts_with_bytes(&bytes, &insert_kw) {
        let all_fields = split_fields(&bytes);

        if all_fields.len() < 4 {
            return Err(PrepareError::SyntaxErr);
        }

        let username = &all_fields[2];
        let email = &all_fields[3];

        if username.len() > COLUMN_USERNAME_SIZE || email.len() > COLUMN_EMAIL_SIZE {
            return Err(PrepareError::InsertError);
        }

        let id = match parse_u32(&all_fields[1]) {
            Some(v) => v,
            None => unreached(),
        };

        let row = Row::from_bytes(
            id,
            slice_to_vec(username.as_slice()),
            slice_to_vec(email.as_slice()),
        );

        return Ok(
            Statement { statement_type: StatementType::Insert, row_to_insert: Some(row) },
        );
    }

    let select_kw = keyword_select();
    if starts_with_bytes(&bytes, &select_kw) {
        return Ok(Statement { statement_type: StatementType::Select, row_to_insert: None });
    }

    Err(PrepareError::UnrecognizedStatement)
}

} // verus!
