use vstd::prelude::*;
use rand::Rng;
use vstd::string::{StrSliceExecFns, StringExecFns};

verus! {

/// The upper-case hex digit of `n`, for `0 <= n < 16`.
pub open spec fn hex_upper(n: int) -> char {
    if n < 10 {
        (('0' as int) + n) as char
    } else {
        (('A' as int) + n - 10) as char
    }
}

/// The first four hex digits, upper case, of a 128-bit identifier: its top
/// sixteen bits, most significant nibble first.
pub open spec fn branch_tag(id: u128) -> Seq<char> {
    let v = id as int;
    seq![
        hex_upper((v / 0x1000_0000_0000_0000_0000_0000_0000_0000) % 16),
        hex_upper((v / 0x0100_0000_0000_0000_0000_0000_0000_0000) % 16),
        hex_upper((v / 0x0010_0000_0000_0000_0000_0000_0000_0000) % 16),
        hex_upper((v / 0x0001_0000_0000_0000_0000_0000_0000_0000) % 16),
    ]
}

/// Relies on the `UpperHex` formatting of `uuid::Uuid::from_u128(id)`: the
/// identifier's sixteen big-endian bytes as 32 upper-case hex digits, grouped
/// 8-4-4-4-12 with `-` between the groups. The first four characters are
/// therefore the top four nibbles.
#[verifier::external_body]
fn uuid_upper_text(id: u128) -> (r: String)
    ensures
        r@.len() == 36,
        r@.subrange(0, 4) == branch_tag(id),
{
    format!("{:X}", uuid::Uuid::from_u128(id))
}

/// The name a new branch of bank `bank_name` gets: the bank's name, `-`, and
/// the first four hex digits of the branch's identifier in upper case.
pub open spec fn branch_name_of(bank_name: Seq<char>, branch_id: u128) -> Seq<char> {
    bank_name + seq!['-'] + branch_tag(branch_id)
}

/// The name of a branch with identifier `branch_id` under bank `bank_name`.
pub fn branch_name_for(bank_name: &str, branch_id: u128) -> (r: String)
    ensures
        r@ == branch_name_of(bank_name@, branch_id),
{
    let full = uuid_upper_text(branch_id);
    let tag = full.as_str().substring_char(0, 4);
    let mut name = String::from_str(bank_name);
    name.append("-");
    name.append(tag);
    proof {
        reveal_strlit("-");
    }
    assert(name@ =~= branch_name_of(bank_name@, branch_id));
    name
}

/// The largest serial an account number is drawn from.
pub const MAX_ACCOUNT_SERIAL: u64 = 99_999_999_999;

/// The decimal digits of `n`, exactly `width` of them, zero-padded on the left
/// (the low `width` digits when `n` has more).
pub open spec fn padded_decimal(n: nat, width: nat) -> Seq<char>
    decreases width,
{
    if width == 0 {
        Seq::empty()
    } else {
        padded_decimal(n / 10, (width - 1) as nat).push((('0' as int) + (n % 10) as int) as char)
    }
}

/// The account number of a serial: `0`, then the serial as 11 zero-padded digits.
pub open spec fn account_number_text(serial: u64) -> Seq<char> {
    seq!['0'] + padded_decimal(serial as nat, 11)
}

/// The decimal digit `d`, for `d < 10`, as text.
fn digit_text(d: u64) -> (r: &'static str)
    requires
        d < 10,
    ensures
        r@ == seq![(('0' as int) + d as int) as char],
{
    proof {
        reveal_strlit("0");
        reveal_strlit("1");
        reveal_strlit("2");
        reveal_strlit("3");
        reveal_strlit("4");
        reveal_strlit("5");
        reveal_strlit("6");
        reveal_strlit("7");
        reveal_strlit("8");
        reveal_strlit("9");
    }
    let r = match d {
        0 => "0",
        1 => "1",
        2 => "2",
        3 => "3",
        4 => "4",
        5 => "5",
        6 => "6",
        7 => "7",
        8 => "8",
        _ => "9",
    };
    assert(r@ =~= seq![(('0' as int) + d as int) as char]);
    r
}

/// `n` as exactly `width` decimal digits (see `padded_decimal`).
fn padded_digits(n: u64, width: u64) -> (r: String)
    ensures
        r@ == padded_decimal(n as nat, width as nat),
    decreases width,
{
    if width == 0 {
        String::new()
    } else {
        let mut s = padded_digits(n / 10, width - 1);
        s.append(digit_text(n % 10));
        assert(s@ =~= padded_decimal(n as nat, width as nat));
        s
    }
}

/// The account number of `serial`: `0`, then the serial as 11 zero-padded
/// digits (its low 11 digits, for a serial above `MAX_ACCOUNT_SERIAL`).
pub fn account_number_for(serial: u64) -> (r: String)
    ensures
        r@ == account_number_text(serial),
{
    let mut r = String::from_str("0");
    let digits = padded_digits(serial, 11);
    r.append(digits.as_str());
    proof {
        reveal_strlit("0");
    }
    assert(r@ =~= account_number_text(serial));
    r
}

/// Relies on `rand::Rng::gen_range` over `0..=MAX_ACCOUNT_SERIAL` with the
/// thread's generator: the result lies in that range.
#[verifier::external_body]
pub fn draw_account_serial() -> (r: u64)
    ensures
        r <= MAX_ACCOUNT_SERIAL,
{
    rand::thread_rng().gen_range(0..=MAX_ACCOUNT_SERIAL)
}

} // verus!
