use vstd::prelude::*;
use vstd::utf8::{
    decode_utf8_encode_utf8, encode_utf8, encode_utf8_decode_utf8, encode_utf8_valid_utf8,
};
use crate::common::string_from_utf8;
use crate::error::ErrorCode;

verus! {

/// An instruction to the vault program, as decoded from its data: a tag
/// byte, then the fields in order. Integers are little endian; a string is
/// its byte length as four bytes, then its UTF-8 bytes; a flag is one byte,
/// 0 or 1.
pub enum VaultInstruction {
    InitializeDriftWithBulk {
        name: String,
        lock_in_period: u64,
        redeem_period: u64,
        max_tokens: u64,
        management_fee: u64,
        min_deposit_amount: u64,
        profit_share: u32,
        hurdle_rate: u32,
        spot_market_index: u16,
        permissioned: bool,
    },
    InitializeVaultDepositor,
    Deposit { name: String, amount: u64 },
    WithdrawRequest { amount: u64 },
    CancelWithdrawRequest,
    Withdraw,
    UpdateDelegate { name: String, delegate: String, sub_account: u16 },
    ManagerDeposit { name: String, amount: u64 },
    ManagerWithdraw { amount: u64 },
    CollectFees { amount: u64 },
    UpdateVault {
        lock_in_period: u64,
        redeem_period: u64,
        max_tokens: u64,
        management_fee: u64,
        min_deposit_amount: u64,
        profit_share: u32,
        hurdle_rate: u32,
        permissioned: bool,
    },
    ResetDelegate,
}

/// `256^n`.
pub open spec fn pow256(n: nat) -> nat
    decreases n,
{
    if n == 0 {
        1
    } else {
        256 * pow256((n - 1) as nat)
    }
}

/// The `n` low bytes of `v`, least significant first.
pub open spec fn le_bytes(v: nat, n: nat) -> Seq<u8>
    decreases n,
{
    if n == 0 {
        Seq::empty()
    } else {
        seq![(v % 256) as u8] + le_bytes(v / 256, (n - 1) as nat)
    }
}

/// The number that bytes encode, least significant first.
pub open spec fn le_value(s: Seq<u8>) -> nat
    decreases s.len(),
{
    if s.len() == 0 {
        0
    } else {
        s[0] as nat + 256 * le_value(s.drop_first())
    }
}

/// Whether a string's encoding can state its length in four bytes.
pub open spec fn string_fits(s: Seq<char>) -> bool {
    encode_utf8(s).len() < pow256(4)
}

/// A string's encoding: its byte length, then its UTF-8 bytes.
pub open spec fn string_bytes(s: Seq<char>) -> Seq<u8> {
    le_bytes(encode_utf8(s).len(), 4) + encode_utf8(s)
}

/// A flag's encoding.
pub open spec fn bool_bytes(b: bool) -> Seq<u8> {
    seq![if b { 1u8 } else { 0u8 }]
}

/// Encoding of the fields of a vault's creation.
pub open spec fn bulk_bytes(
    name: Seq<char>,
    lock_in_period: u64,
    redeem_period: u64,
    max_tokens: u64,
    management_fee: u64,
    min_deposit_amount: u64,
    profit_share: u32,
    hurdle_rate: u32,
    spot_market_index: u16,
    permissioned: bool,
) -> Seq<u8> {
    string_bytes(name) + (le_bytes(lock_in_period as nat, 8) + (le_bytes(redeem_period as nat, 8)
        + (le_bytes(max_tokens as nat, 8) + (le_bytes(management_fee as nat, 8) + (le_bytes(
        min_deposit_amount as nat,
        8,
    ) + (le_bytes(profit_share as nat, 4) + (le_bytes(hurdle_rate as nat, 4) + (le_bytes(
        spot_market_index as nat,
        2,
    ) + bool_bytes(permissioned)))))))))
}

/// Encoding of the fields of a parameter update.
pub open spec fn update_bytes(
    lock_in_period: u64,
    redeem_period: u64,
    max_tokens: u64,
    management_fee: u64,
    min_deposit_amount: u64,
    profit_share: u32,
    hurdle_rate: u32,
    permissioned: bool,
) -> Seq<u8> {
    le_bytes(lock_in_period as nat, 8) + (le_bytes(redeem_period as nat, 8) + (le_bytes(
        max_tokens as nat,
        8,
    ) + (le_bytes(management_fee as nat, 8) + (le_bytes(min_deposit_amount as nat, 8) + (le_bytes(
        profit_share as nat,
        4,
    ) + (le_bytes(hurdle_rate as nat, 4) + bool_bytes(permissioned)))))))
}

/// The tag byte of an instruction.
pub open spec fn tag(ix: VaultInstruction) -> u8 {
    match ix {
        VaultInstruction::InitializeDriftWithBulk { .. } => 0,
        VaultInstruction::InitializeVaultDepositor => 1,
        VaultInstruction::Deposit { .. } => 2,
        VaultInstruction::WithdrawRequest { .. } => 3,
        VaultInstruction::CancelWithdrawRequest => 4,
        VaultInstruction::Withdraw => 5,
        VaultInstruction::UpdateDelegate { .. } => 6,
        VaultInstruction::ManagerDeposit { .. } => 7,
        VaultInstruction::ManagerWithdraw { .. } => 8,
        VaultInstruction::CollectFees { .. } => 9,
        VaultInstruction::UpdateVault { .. } => 10,
        VaultInstruction::ResetDelegate => 11,
    }
}

/// The bytes after the tag that encode an instruction's fields, and
/// whether its strings fit. Instructions without fields take any bytes
/// after the tag.
pub open spec fn fields(ix: VaultInstruction) -> Option<Seq<u8>> {
    match ix {
        VaultInstruction::InitializeDriftWithBulk {
            name,
            lock_in_period,
            redeem_period,
            max_tokens,
            management_fee,
            min_deposit_amount,
            profit_share,
            hurdle_rate,
            spot_market_index,
            permissioned,
        } => if string_fits(name@) {
            Some(
                bulk_bytes(
                    name@,
                    lock_in_period,
                    redeem_period,
                    max_tokens,
                    management_fee,
                    min_deposit_amount,
                    profit_share,
                    hurdle_rate,
                    spot_market_index,
                    permissioned,
                ),
            )
        } else {
            None
        },
        VaultInstruction::Deposit { name, amount } | VaultInstruction::ManagerDeposit {
            name,
            amount,
        } => if string_fits(name@) {
            Some(string_bytes(name@) + le_bytes(amount as nat, 8))
        } else {
            None
        },
        VaultInstruction::WithdrawRequest { amount } | VaultInstruction::ManagerWithdraw {
            amount,
        } | VaultInstruction::CollectFees { amount } => Some(le_bytes(amount as nat, 8)),
        VaultInstruction::UpdateVault {
            lock_in_period,
            redeem_period,
            max_tokens,
            management_fee,
            min_deposit_amount,
            profit_share,
            hurdle_rate,
            permissioned,
        } => Some(
            update_bytes(
                lock_in_period,
                redeem_period,
                max_tokens,
                management_fee,
                min_deposit_amount,
                profit_share,
                hurdle_rate,
                permissioned,
            ),
        ),
        VaultInstruction::UpdateDelegate { name, delegate, sub_account } => if string_fits(name@)
            && string_fits(delegate@) {
            Some(string_bytes(name@) + string_bytes(delegate@) + le_bytes(sub_account as nat, 2))
        } else {
            None
        },
        _ => Some(Seq::empty()),
    }
}

/// Whether an instruction carries fields.
pub open spec fn has_fields(ix: VaultInstruction) -> bool {
    match ix {
        VaultInstruction::InitializeVaultDepositor => false,
        VaultInstruction::CancelWithdrawRequest => false,
        VaultInstruction::Withdraw => false,
        VaultInstruction::ResetDelegate => false,
        _ => true,
    }
}

/// Whether `b` encodes `ix`: its tag, then exactly the encoding of its
/// fields (anything, for an instruction without fields).
pub open spec fn encodes(ix: VaultInstruction, b: Seq<u8>) -> bool {
    &&& b.len() >= 1
    &&& b[0] == tag(ix)
    &&& fields(ix) is Some
    &&& has_fields(ix) ==> b.drop_first() == fields(ix)->Some_0
}

pub proof fn lemma_le_round_trip(s: Seq<u8>)
    ensures
        le_bytes(le_value(s), s.len()) == s,
        le_value(s) < pow256(s.len()),
    decreases s.len(),
{
    if s.len() > 0 {
        let rest = s.drop_first();
        lemma_le_round_trip(rest);
        let v = le_value(s);
        assert(v % 256 == s[0] as nat && v / 256 == le_value(rest)) by (nonlinear_arith)
            requires
                v == s[0] as nat + 256 * le_value(rest),
                0 <= s[0] < 256,
        ;
        assert(le_bytes(v, s.len()) =~= s);
    }
}

pub proof fn lemma_le_value_of_bytes(v: nat, n: nat)
    requires
        v < pow256(n),
    ensures
        le_value(le_bytes(v, n)) == v,
        le_bytes(v, n).len() == n,
    decreases n,
{
    if n > 0 {
        assert(v / 256 < pow256((n - 1) as nat)) by (nonlinear_arith)
            requires
                v < 256 * pow256((n - 1) as nat),
        ;
        lemma_le_value_of_bytes(v / 256, (n - 1) as nat);
        let b = le_bytes(v, n);
        assert(b.drop_first() =~= le_bytes(v / 256, (n - 1) as nat));
        assert(v == (v % 256) + 256 * (v / 256)) by (nonlinear_arith);
    }
}

proof fn lemma_split_at(b: Seq<u8>, pos: int, a: Seq<u8>, rest: Seq<u8>)
    requires
        0 <= pos <= b.len(),
        b.subrange(pos, b.len() as int) == a + rest,
    ensures
        pos + a.len() <= b.len(),
        b.subrange(pos, pos + a.len()) == a,
        b.subrange(pos + a.len(), b.len() as int) == rest,
{
    assert(b.subrange(pos, pos + a.len()) =~= (a + rest).subrange(0, a.len() as int));
    assert(b.subrange(pos + a.len(), b.len() as int) =~= (a + rest).subrange(
        a.len() as int,
        (a + rest).len() as int,
    ));
}

proof fn lemma_join(b: Seq<u8>, at0: int, at1: int, at2: int)
    requires
        0 <= at0 <= at1 <= at2 <= b.len(),
    ensures
        b.subrange(at0, at2) == b.subrange(at0, at1) + b.subrange(at1, at2),
{
    assert(b.subrange(at0, at2) =~= b.subrange(at0, at1) + b.subrange(at1, at2));
}

proof fn lemma_pow256_at_most_7(k: nat)
    requires
        k <= 7,
    ensures
        pow256(k) <= 0x100_0000_0000_0000,
{
    reveal_with_fuel(pow256, 8);
    if k == 0 {
    } else if k == 1 {
    } else if k == 2 {
    } else if k == 3 {
    } else if k == 4 {
    } else if k == 5 {
    } else if k == 6 {
    } else {
    }
}

proof fn lemma_pow256_small()
    ensures
        pow256(2) == 0x1_0000,
        pow256(4) == 0x1_0000_0000,
        pow256(8) == 0x1_0000_0000_0000_0000,
{
    reveal_with_fuel(pow256, 9);
}

/// Reads an `n`-byte little-endian number at `pos`.
fn read_le(input: &[u8], pos: usize, n: usize) -> (r: Option<(u64, usize)>)
    requires
        1 <= n <= 8,
        pos <= input@.len(),
    ensures
        r matches Some((v, p)) ==> {
            &&& p == pos + n
            &&& p <= input@.len()
            &&& input@.subrange(pos as int, p as int) == le_bytes(v as nat, n as nat)
            &&& v < pow256(n as nat)
        },
        r is None <==> pos + n > input@.len(),
        forall|w: nat|
            #![trigger le_bytes(w, n as nat)]
            w < pow256(n as nat) && pos + n <= input@.len() && input@.subrange(
                pos as int,
                pos + n,
            ) == le_bytes(w, n as nat) ==> r == Some::<(u64, usize)>((w as u64, (pos + n) as usize)),
{
    if n > input.len() - pos {
        return None;
    }
    let mut v: u64 = 0;
    let mut i: usize = n;
    proof {
        assert(input@.subrange(pos + n, pos + n) =~= Seq::<u8>::empty());
    }
    while i > 0
        invariant
            1 <= n <= 8,
            pos + n <= input@.len(),
            pos + n <= usize::MAX,
            0 <= i <= n,
            v as nat == le_value(input@.subrange(pos + i, pos + n)),
            v < pow256((n - i) as nat),
        decreases i,
    {
        proof {
            lemma_pow256_at_most_7((n - i) as nat);
        }
        i = i - 1;
        let byte = input[pos + i];
        proof {
            let t = input@.subrange(pos + i, pos + n);
            assert(t.drop_first() =~= input@.subrange(pos + i + 1, pos + n));
            assert(t[0] == byte);
        }
        v = v * 256 + byte as u64;
    }
    let ghost s = input@.subrange(pos as int, pos + n);
    proof {
        lemma_le_round_trip(s);
        assert forall|w: nat|
            #![trigger le_bytes(w, n as nat)]
            w < pow256(n as nat) && s == le_bytes(w, n as nat) implies w == v by {
            lemma_le_value_of_bytes(w, n as nat);
        }
    }
    Some((v, pos + n))
}

/// Reads a string at `pos`: its byte length, then that many bytes of
/// valid UTF-8.
fn read_string(input: &[u8], pos: usize) -> (r: Option<(String, usize)>)
    requires
        pos <= input@.len(),
    ensures
        r matches Some((s, p)) ==> {
            &&& pos <= p <= input@.len()
            &&& input@.subrange(pos as int, p as int) == string_bytes(s@)
            &&& string_fits(s@)
        },
        forall|t: Seq<char>|
            #![trigger string_bytes(t)]
            string_fits(t) && pos + string_bytes(t).len() <= input@.len() && input@.subrange(
                pos as int,
                pos + string_bytes(t).len(),
            ) == string_bytes(t) ==> (r matches Some((s, p)) && s@ == t && p == pos
                + string_bytes(t).len()),
{
    proof {
        lemma_pow256_small();
    }
    let (len, start) = match read_le(input, pos, 4) {
        Some(x) => x,
        None => {
            proof {
                assert forall|t: Seq<char>|
                    #![trigger string_bytes(t)]
                    string_fits(t) && pos + string_bytes(t).len() <= input@.len()
                        && input@.subrange(pos as int, pos + string_bytes(t).len())
                        == string_bytes(t) implies false by {
                    lemma_le_value_of_bytes(encode_utf8(t).len(), 4);
                }
            }
            return None;
        },
    };
    let len = len as usize;
    if len > input.len() - start {
        proof {
            assert forall|t: Seq<char>|
                #![trigger string_bytes(t)]
                string_fits(t) && pos + string_bytes(t).len() <= input@.len() && input@.subrange(
                    pos as int,
                    pos + string_bytes(t).len(),
                ) == string_bytes(t) implies false by {
                let e = encode_utf8(t);
                lemma_le_value_of_bytes(e.len(), 4);
                assert(input@.subrange(pos as int, pos + 4) =~= string_bytes(t).subrange(0, 4));
                assert(string_bytes(t).subrange(0, 4) =~= le_bytes(e.len(), 4));
            }
        }
        return None;
    }
    let mut bytes: Vec<u8> = Vec::new();
    let mut i: usize = start;
    let end: usize = start + len;
    while i < end
        invariant
            start <= i <= end,
            end == start + len,
            end <= input@.len(),
            bytes@ == input@.subrange(start as int, i as int),
        decreases end - i,
    {
        bytes.push(input[i]);
        i = i + 1;
        proof {
            assert(bytes@ =~= input@.subrange(start as int, i as int));
        }
    }
    let ghost text = bytes@;
    proof {
        lemma_join(input@, pos as int, start as int, end as int);
    }
    match string_from_utf8(bytes) {
        Some(s) => {
            proof {
                decode_utf8_encode_utf8(text);
                assert forall|t: Seq<char>|
                    #![trigger string_bytes(t)]
                    string_fits(t) && pos + string_bytes(t).len() <= input@.len()
                        && input@.subrange(pos as int, pos + string_bytes(t).len())
                        == string_bytes(t) implies s@ == t && end == pos + string_bytes(t).len() by {
                    let e = encode_utf8(t);
                    lemma_le_value_of_bytes(e.len(), 4);
                    assert(input@.subrange(pos as int, pos + 4) =~= string_bytes(t).subrange(0, 4));
                    assert(string_bytes(t).subrange(0, 4) =~= le_bytes(e.len(), 4));
                    assert(input@.subrange(start as int, end as int) =~= string_bytes(t).subrange(
                        4,
                        string_bytes(t).len() as int,
                    ));
                    assert(string_bytes(t).subrange(4, string_bytes(t).len() as int) =~= e);
                    encode_utf8_decode_utf8(t);
                }
            }
            Some((s, end))
        },
        None => {
            proof {
                assert forall|t: Seq<char>|
                    #![trigger string_bytes(t)]
                    string_fits(t) && pos + string_bytes(t).len() <= input@.len()
                        && input@.subrange(pos as int, pos + string_bytes(t).len())
                        == string_bytes(t) implies false by {
                    let e = encode_utf8(t);
                    lemma_le_value_of_bytes(e.len(), 4);
                    assert(input@.subrange(pos as int, pos + 4) =~= string_bytes(t).subrange(0, 4));
                    assert(string_bytes(t).subrange(0, 4) =~= le_bytes(e.len(), 4));
                    assert(input@.subrange(start as int, end as int) =~= string_bytes(t).subrange(
                        4,
                        string_bytes(t).len() as int,
                    ));
                    assert(string_bytes(t).subrange(4, string_bytes(t).len() as int) =~= e);
                    encode_utf8_valid_utf8(t);
                }
            }
            None
        },
    }
}

/// Reads a flag at `pos`: one byte, 0 or 1.
fn read_bool(input: &[u8], pos: usize) -> (r: Option<(bool, usize)>)
    requires
        pos <= input@.len(),
    ensures
        r matches Some((v, p)) ==> p == pos + 1 && p <= input@.len() && input@.subrange(
            pos as int,
            p as int,
        ) == bool_bytes(v),
        forall|w: bool|
            #![trigger bool_bytes(w)]
            pos + 1 <= input@.len() && input@.subrange(pos as int, pos + 1) == bool_bytes(w) ==> r
                == Some::<(bool, usize)>((w, (pos + 1) as usize)),
{
    if pos >= input.len() {
        return None;
    }
    let byte = input[pos];
    proof {
        assert forall|w: bool|
            #![trigger bool_bytes(w)]
            pos + 1 <= input@.len() && input@.subrange(pos as int, pos + 1) == bool_bytes(w) implies (
            w == (byte == 1)) && (byte == 0 || byte == 1) by {
            assert(input@.subrange(pos as int, pos + 1)[0] == byte);
        }
    }
    if byte == 0 {
        proof {
            assert(input@.subrange(pos as int, pos + 1) =~= bool_bytes(false));
        }
        Some((false, pos + 1))
    } else if byte == 1 {
        proof {
            assert(input@.subrange(pos as int, pos + 1) =~= bool_bytes(true));
        }
        Some((true, pos + 1))
    } else {
        None
    }
}

/// Reads a name and an amount after the tag.
fn read_name_amount(input: &[u8]) -> (r: Option<(String, u64)>)
    requires
        input@.len() >= 1,
    ensures
        r matches Some((s, a)) ==> string_fits(s@) && input@.drop_first() == string_bytes(s@)
            + le_bytes(a as nat, 8),
        forall|t: Seq<char>, a: u64|
            string_fits(t) && input@.drop_first() == string_bytes(t) + le_bytes(a as nat, 8) ==> (
            r matches Some((s, a2)) && s@ == t && a2 == a),
{
    let ghost b = input@;
    proof {
        lemma_pow256_small();
        assert(b.drop_first() =~= b.subrange(1, b.len() as int));
    }
    let (name, p) = match read_string(input, 1) {
        Some(x) => x,
        None => {
            proof {
                assert forall|t: Seq<char>, a: u64|
                    string_fits(t) && b.drop_first() == string_bytes(t) + le_bytes(a as nat, 8)
                    implies false by {
                    lemma_split_at(b, 1, string_bytes(t), le_bytes(a as nat, 8));
                }
            }
            return None;
        },
    };
    let (amount, end) = match read_le(input, p, 8) {
        Some(x) => x,
        None => {
            proof {
                assert forall|t: Seq<char>, a: u64|
                    string_fits(t) && b.drop_first() == string_bytes(t) + le_bytes(a as nat, 8)
                    implies false by {
                    lemma_split_at(b, 1, string_bytes(t), le_bytes(a as nat, 8));
                    lemma_le_value_of_bytes(a as nat, 8);
                }
            }
            return None;
        },
    };
    if end != input.len() {
        proof {
            assert forall|t: Seq<char>, a: u64|
                string_fits(t) && b.drop_first() == string_bytes(t) + le_bytes(a as nat, 8)
                implies false by {
                lemma_split_at(b, 1, string_bytes(t), le_bytes(a as nat, 8));
                lemma_le_value_of_bytes(a as nat, 8);
            }
        }
        return None;
    }
    proof {
        lemma_join(b, 1, p as int, end as int);
        assert forall|t: Seq<char>, a: u64|
            string_fits(t) && b.drop_first() == string_bytes(t) + le_bytes(a as nat, 8)
            implies name@ == t && amount == a by {
            lemma_split_at(b, 1, string_bytes(t), le_bytes(a as nat, 8));
            lemma_le_value_of_bytes(a as nat, 8);
        }
    }
    Some((name, amount))
}

/// Reads an amount after the tag.
fn read_amount(input: &[u8]) -> (r: Option<u64>)
    requires
        input@.len() >= 1,
    ensures
        r matches Some(a) ==> input@.drop_first() == le_bytes(a as nat, 8),
        forall|a: u64| input@.drop_first() == le_bytes(a as nat, 8) ==> r == Some(a),
{
    let ghost b = input@;
    proof {
        lemma_pow256_small();
        assert(b.drop_first() =~= b.subrange(1, b.len() as int));
    }
    match read_le(input, 1, 8) {
        Some((amount, end)) => {
            if end != input.len() {
                proof {
                    assert forall|a: u64| b.drop_first() == le_bytes(a as nat, 8) implies false by {
                        lemma_le_value_of_bytes(a as nat, 8);
                    }
                }
                return None;
            }
            proof {
                assert forall|a: u64|
                    b.drop_first() == le_bytes(a as nat, 8)
                    implies amount == a by {
                    lemma_le_value_of_bytes(a as nat, 8);
                }
            }
            Some(amount)
        },
        None => {
            proof {
                assert forall|a: u64| b.drop_first() == le_bytes(a as nat, 8) implies false by {
                    lemma_le_value_of_bytes(a as nat, 8);
                }
            }
            None
        },
    }
}

proof fn lemma_bulk_layout(
    b: Seq<u8>,
    t: Seq<char>, l: u64, rp: u64, mt: u64, mf: u64, md: u64, ps: u32, hr: u32, sm: u16, pm: bool,
)
    requires
        b.len() >= 1,
        string_fits(t) && b.drop_first() == bulk_bytes(t, l, rp, mt, mf, md, ps, hr, sm, pm),
    ensures
        ({
            let q1: int = 1 + string_bytes(t).len() as int;
            &&& b.subrange(1, q1) == string_bytes(t)
            &&& b.subrange(q1, q1 + 8) == le_bytes(l as nat, 8)
            &&& b.subrange(q1 + 8, q1 + 16) == le_bytes(rp as nat, 8)
            &&& b.subrange(q1 + 16, q1 + 24) == le_bytes(mt as nat, 8)
            &&& b.subrange(q1 + 24, q1 + 32) == le_bytes(mf as nat, 8)
            &&& b.subrange(q1 + 32, q1 + 40) == le_bytes(md as nat, 8)
            &&& b.subrange(q1 + 40, q1 + 44) == le_bytes(ps as nat, 4)
            &&& b.subrange(q1 + 44, q1 + 48) == le_bytes(hr as nat, 4)
            &&& b.subrange(q1 + 48, q1 + 50) == le_bytes(sm as nat, 2)
            &&& b.subrange(q1 + 50, q1 + 51) == bool_bytes(pm)
            &&& b.len() == q1 + 51
        }),
{
    lemma_pow256_small();
    lemma_le_value_of_bytes(l as nat, 8);
    lemma_le_value_of_bytes(rp as nat, 8);
    lemma_le_value_of_bytes(mt as nat, 8);
    lemma_le_value_of_bytes(mf as nat, 8);
    lemma_le_value_of_bytes(md as nat, 8);
    lemma_le_value_of_bytes(ps as nat, 4);
    lemma_le_value_of_bytes(hr as nat, 4);
    lemma_le_value_of_bytes(sm as nat, 2);
    assert(b.drop_first() =~= b.subrange(1, b.len() as int));
    let q1: int = 1 + string_bytes(t).len() as int;
    let r9 = bool_bytes(pm);
    let r8 = le_bytes(sm as nat, 2) + r9;
    let r7 = le_bytes(hr as nat, 4) + r8;
    let r6 = le_bytes(ps as nat, 4) + r7;
    let r5 = le_bytes(md as nat, 8) + r6;
    let r4 = le_bytes(mf as nat, 8) + r5;
    let r3 = le_bytes(mt as nat, 8) + r4;
    let r2 = le_bytes(rp as nat, 8) + r3;
    let r1 = le_bytes(l as nat, 8) + r2;
    lemma_split_at(b, 1, string_bytes(t), r1);
    lemma_split_at(b, q1, le_bytes(l as nat, 8), r2);
    lemma_split_at(b, q1 + 8, le_bytes(rp as nat, 8), r3);
    lemma_split_at(b, q1 + 16, le_bytes(mt as nat, 8), r4);
    lemma_split_at(b, q1 + 24, le_bytes(mf as nat, 8), r5);
    lemma_split_at(b, q1 + 32, le_bytes(md as nat, 8), r6);
    lemma_split_at(b, q1 + 40, le_bytes(ps as nat, 4), r7);
    lemma_split_at(b, q1 + 44, le_bytes(hr as nat, 4), r8);
    lemma_split_at(b, q1 + 48, le_bytes(sm as nat, 2), r9);
}

/// Reads the fields of a vault's creation after the tag.
fn read_bulk_fields(input: &[u8]) -> (r: Option<
    (String, u64, u64, u64, u64, u64, u32, u32, u16, bool),
>)
    requires
        input@.len() >= 1,
    ensures
        r matches Some((n, l, rp, mt, mf, md, ps, hr, sm, pm)) ==> string_fits(n@)
            && input@.drop_first() == bulk_bytes(n@, l, rp, mt, mf, md, ps, hr, sm, pm),
        forall|t: Seq<char>, l: u64, rp: u64, mt: u64, mf: u64, md: u64, ps: u32, hr: u32,
            sm: u16, pm: bool|
            string_fits(t) && input@.drop_first() == bulk_bytes(t, l, rp, mt, mf, md, ps, hr, sm, pm)
                ==> (r matches Some(
                (n, l2, rp2, mt2, mf2, md2, ps2, hr2, sm2, pm2),
            ) && n@ == t && l2 == l && rp2 == rp && mt2 == mt && mf2 == mf && md2 == md && ps2 == ps
                && hr2 == hr && sm2 == sm && pm2 == pm),
{
    let ghost b = input@;
    proof {
        lemma_pow256_small();
    }
    let (name, at0) = match read_string(input, 1) {
        Some(x) => x,
        None => {
            proof {
                assert forall|t: Seq<char>, l: u64, rp: u64, mt: u64, mf: u64, md: u64,
                    ps: u32, hr: u32, sm: u16, pm: bool|
                    string_fits(t)
                        && b.drop_first() == bulk_bytes(t, l, rp, mt, mf, md, ps, hr, sm, pm)
                    implies false by {
                    lemma_bulk_layout(b, t, l, rp, mt, mf, md, ps, hr, sm, pm);
                }
            }
            return None;
        },
    };
    let (lock_in_period, at1) = match read_le(input, at0, 8) {
        Some(x) => x,
        None => {
            proof {
                assert forall|t: Seq<char>, l: u64, rp: u64, mt: u64, mf: u64, md: u64,
                    ps: u32, hr: u32, sm: u16, pm: bool|
                    string_fits(t)
                        && b.drop_first() == bulk_bytes(t, l, rp, mt, mf, md, ps, hr, sm, pm)
                    implies false by {
                    lemma_bulk_layout(b, t, l, rp, mt, mf, md, ps, hr, sm, pm);
                }
            }
            return None;
        },
    };
    let (redeem_period, at2) = match read_le(input, at1, 8) {
        Some(x) => x,
        None => {
            proof {
                assert forall|t: Seq<char>, l: u64, rp: u64, mt: u64, mf: u64, md: u64,
                    ps: u32, hr: u32, sm: u16, pm: bool|
                    string_fits(t)
                        && b.drop_first() == bulk_bytes(t, l, rp, mt, mf, md, ps, hr, sm, pm)
                    implies false by {
                    lemma_bulk_layout(b, t, l, rp, mt, mf, md, ps, hr, sm, pm);
                }
            }
            return None;
        },
    };
    let (max_tokens, at3) = match read_le(input, at2, 8) {
        Some(x) => x,
        None => {
            proof {
                assert forall|t: Seq<char>, l: u64, rp: u64, mt: u64, mf: u64, md: u64,
                    ps: u32, hr: u32, sm: u16, pm: bool|
                    string_fits(t)
                        && b.drop_first() == bulk_bytes(t, l, rp, mt, mf, md, ps, hr, sm, pm)
                    implies false by {
                    lemma_bulk_layout(b, t, l, rp, mt, mf, md, ps, hr, sm, pm);
                }
            }
            return None;
        },
    };
    let (management_fee, at4) = match read_le(input, at3, 8) {
        Some(x) => x,
        None => {
            proof {
                assert forall|t: Seq<char>, l: u64, rp: u64, mt: u64, mf: u64, md: u64,
                    ps: u32, hr: u32, sm: u16, pm: bool|
                    string_fits(t)
                        && b.drop_first() == bulk_bytes(t, l, rp, mt, mf, md, ps, hr, sm, pm)
                    implies false by {
                    lemma_bulk_layout(b, t, l, rp, mt, mf, md, ps, hr, sm, pm);
                }
            }
            return None;
        },
    };
    let (min_deposit_amount, at5) = match read_le(input, at4, 8) {
        Some(x) => x,
        None => {
            proof {
                assert forall|t: Seq<char>, l: u64, rp: u64, mt: u64, mf: u64, md: u64,
                    ps: u32, hr: u32, sm: u16, pm: bool|
                    string_fits(t)
                        && b.drop_first() == bulk_bytes(t, l, rp, mt, mf, md, ps, hr, sm, pm)
                    implies false by {
                    lemma_bulk_layout(b, t, l, rp, mt, mf, md, ps, hr, sm, pm);
                }
            }
            return None;
        },
    };
    let (profit_share, at6) = match read_le(input, at5, 4) {
        Some(x) => x,
        None => {
            proof {
                assert forall|t: Seq<char>, l: u64, rp: u64, mt: u64, mf: u64, md: u64,
                    ps: u32, hr: u32, sm: u16, pm: bool|
                    string_fits(t)
                        && b.drop_first() == bulk_bytes(t, l, rp, mt, mf, md, ps, hr, sm, pm)
                    implies false by {
                    lemma_bulk_layout(b, t, l, rp, mt, mf, md, ps, hr, sm, pm);
                }
            }
            return None;
        },
    };
    let (hurdle_rate, at7) = match read_le(input, at6, 4) {
        Some(x) => x,
        None => {
            proof {
                assert forall|t: Seq<char>, l: u64, rp: u64, mt: u64, mf: u64, md: u64,
                    ps: u32, hr: u32, sm: u16, pm: bool|
                    string_fits(t)
                        && b.drop_first() == bulk_bytes(t, l, rp, mt, mf, md, ps, hr, sm, pm)
                    implies false by {
                    lemma_bulk_layout(b, t, l, rp, mt, mf, md, ps, hr, sm, pm);
                }
            }
            return None;
        },
    };
    let (spot_market_index, at8) = match read_le(input, at7, 2) {
        Some(x) => x,
        None => {
            proof {
                assert forall|t: Seq<char>, l: u64, rp: u64, mt: u64, mf: u64, md: u64,
                    ps: u32, hr: u32, sm: u16, pm: bool|
                    string_fits(t)
                        && b.drop_first() == bulk_bytes(t, l, rp, mt, mf, md, ps, hr, sm, pm)
                    implies false by {
                    lemma_bulk_layout(b, t, l, rp, mt, mf, md, ps, hr, sm, pm);
                }
            }
            return None;
        },
    };
    let (permissioned, at9) = match read_bool(input, at8) {
        Some(x) => x,
        None => {
            proof {
                assert forall|t: Seq<char>, l: u64, rp: u64, mt: u64, mf: u64, md: u64,
                    ps: u32, hr: u32, sm: u16, pm: bool|
                    string_fits(t)
                        && b.drop_first() == bulk_bytes(t, l, rp, mt, mf, md, ps, hr, sm, pm)
                    implies false by {
                    lemma_bulk_layout(b, t, l, rp, mt, mf, md, ps, hr, sm, pm);
                }
            }
            return None;
        },
    };
    if at9 != input.len() {
        proof {
                assert forall|t: Seq<char>, l: u64, rp: u64, mt: u64, mf: u64, md: u64,
                    ps: u32, hr: u32, sm: u16, pm: bool|
                    string_fits(t)
                        && b.drop_first() == bulk_bytes(t, l, rp, mt, mf, md, ps, hr, sm, pm)
                    implies false by {
                    lemma_bulk_layout(b, t, l, rp, mt, mf, md, ps, hr, sm, pm);
                }
            }
        return None;
    }
    proof {
        lemma_join(b, 1, at0 as int, at1 as int);
        lemma_join(b, at0 as int, at1 as int, at9 as int);
        lemma_join(b, at1 as int, at2 as int, at9 as int);
        lemma_join(b, at2 as int, at3 as int, at9 as int);
        lemma_join(b, at3 as int, at4 as int, at9 as int);
        lemma_join(b, at4 as int, at5 as int, at9 as int);
        lemma_join(b, at5 as int, at6 as int, at9 as int);
        lemma_join(b, at6 as int, at7 as int, at9 as int);
        lemma_join(b, at7 as int, at8 as int, at9 as int);
        lemma_join(b, 1, at0 as int, at9 as int);
        assert(b.drop_first() =~= b.subrange(1, b.len() as int));
        assert forall|t: Seq<char>, l: u64, rp: u64, mt: u64, mf: u64,
            md: u64, ps: u32, hr: u32, sm: u16, pm: bool|
            string_fits(t) && b.drop_first() == bulk_bytes(t, l, rp, mt, mf, md, ps, hr, sm, pm)
            implies name@ == t && lock_in_period == l && redeem_period == rp
            && max_tokens == mt && management_fee == mf && min_deposit_amount == md
            && profit_share == ps && hurdle_rate == hr && spot_market_index == sm && permissioned
            == pm by {
            lemma_bulk_layout(b, t, l, rp, mt, mf, md, ps, hr, sm, pm);
        }
    }
    Some(
        (
            name,
            lock_in_period,
            redeem_period,
            max_tokens,
            management_fee,
            min_deposit_amount,
            profit_share as u32,
            hurdle_rate as u32,
            spot_market_index as u16,
            permissioned,
        ),
    )
}

proof fn lemma_delegate_layout(b: Seq<u8>, t: Seq<char>, u: Seq<char>, sa: u16)
    requires
        b.len() >= 1,
        string_fits(t) && string_fits(u) && b.drop_first() == string_bytes(t) + string_bytes(u)
            + le_bytes(sa as nat, 2),
    ensures
        ({
            let q1: int = 1 + string_bytes(t).len() as int;
            let q2: int = q1 + string_bytes(u).len() as int;
            &&& b.subrange(1, q1) == string_bytes(t)
            &&& b.subrange(q1, q2) == string_bytes(u)
            &&& b.subrange(q2, q2 + 2) == le_bytes(sa as nat, 2)
            &&& b.len() == q2 + 2
        }),
{
    lemma_pow256_small();
    lemma_le_value_of_bytes(sa as nat, 2);
    assert(b.drop_first() =~= b.subrange(1, b.len() as int));
    let q1: int = 1 + string_bytes(t).len() as int;
    let r2 = le_bytes(sa as nat, 2);
    let r1 = string_bytes(u) + r2;
    assert(string_bytes(t) + string_bytes(u) + r2 =~= string_bytes(t) + r1);
    lemma_split_at(b, 1, string_bytes(t), r1);
    lemma_split_at(b, q1, string_bytes(u), r2);
}

/// Reads the fields of a delegate update after the tag.
fn read_delegate_fields(input: &[u8]) -> (r: Option<(String, String, u16)>)
    requires
        input@.len() >= 1,
    ensures
        r matches Some((n, d, sa)) ==> string_fits(n@) && string_fits(d@) && input@.drop_first()
            == string_bytes(n@) + string_bytes(d@) + le_bytes(sa as nat, 2),
        forall|t: Seq<char>, u: Seq<char>, sa: u16|
            string_fits(t) && string_fits(u) && input@.drop_first() == string_bytes(t)
                + string_bytes(u) + le_bytes(sa as nat, 2) ==> (r matches Some((n, d, sa2)) && n@
                == t && d@ == u && sa2 == sa),
{
    let ghost b = input@;
    proof {
        lemma_pow256_small();
    }
    let (name, at0) = match read_string(input, 1) {
        Some(x) => x,
        None => {
            proof {
                assert forall|t: Seq<char>, u: Seq<char>, sa: u16|
                    string_fits(t)
                        && string_fits(u)
                        && b.drop_first() == string_bytes(t) + string_bytes(u)
                        + le_bytes(sa as nat, 2)
                    implies false by {
                    lemma_delegate_layout(b, t, u, sa);
                }
            }
            return None;
        },
    };
    let (delegate, at1) = match read_string(input, at0) {
        Some(x) => x,
        None => {
            proof {
                assert forall|t: Seq<char>, u: Seq<char>, sa: u16|
                    string_fits(t)
                        && string_fits(u)
                        && b.drop_first() == string_bytes(t) + string_bytes(u)
                        + le_bytes(sa as nat, 2)
                    implies false by {
                    lemma_delegate_layout(b, t, u, sa);
                }
            }
            return None;
        },
    };
    let (sub_account, at2) = match read_le(input, at1, 2) {
        Some(x) => x,
        None => {
            proof {
                assert forall|t: Seq<char>, u: Seq<char>, sa: u16|
                    string_fits(t)
                        && string_fits(u)
                        && b.drop_first() == string_bytes(t) + string_bytes(u)
                        + le_bytes(sa as nat, 2)
                    implies false by {
                    lemma_delegate_layout(b, t, u, sa);
                }
            }
            return None;
        },
    };
    if at2 != input.len() {
        proof {
                assert forall|t: Seq<char>, u: Seq<char>, sa: u16|
                    string_fits(t)
                        && string_fits(u)
                        && b.drop_first() == string_bytes(t) + string_bytes(u)
                        + le_bytes(sa as nat, 2)
                    implies false by {
                    lemma_delegate_layout(b, t, u, sa);
                }
            }
        return None;
    }
    proof {
        lemma_join(b, 1, at0 as int, at1 as int);
        lemma_join(b, 1, at1 as int, at2 as int);
        assert(b.drop_first() =~= b.subrange(1, b.len() as int));
        assert forall|t: Seq<char>, u: Seq<char>, sa: u16|
            string_fits(t)
                && string_fits(u)
                && b.drop_first() == string_bytes(t) + string_bytes(u) + le_bytes(sa as nat, 2)
            implies name@ == t && delegate@ == u && sub_account == sa by {
            lemma_delegate_layout(b, t, u, sa);
        }
    }
    Some((name, delegate, sub_account as u16))
}

impl VaultInstruction {
    /// Decodes an instruction: succeeds exactly on the encodings of
    /// instructions (see `encodes`), and returns the instruction encoded.
    pub fn unpack(input: &[u8]) -> (r: Result<VaultInstruction, ErrorCode>)
        ensures
            r matches Ok(ix) ==> encodes(ix, input@),
            (exists|ix: VaultInstruction| encodes(ix, input@)) ==> r is Ok,
            r is Err ==> r == Err::<VaultInstruction, ErrorCode>(ErrorCode::InvalidInput),
    {
        if input.len() == 0 {
            return Err(ErrorCode::InvalidInput);
        }
        let variant = input[0];
        let ghost b = input@;
        if variant == 0 {
            match read_bulk_fields(input) {
                Some(
                    (
                        name, lock_in_period, redeem_period, max_tokens, management_fee,
                        min_deposit_amount, profit_share, hurdle_rate, spot_market_index,
                        permissioned
                    ),
                ) => {
                    Ok(
                        VaultInstruction::InitializeDriftWithBulk {
                            name,
                            lock_in_period,
                            redeem_period,
                            max_tokens,
                            management_fee,
                            min_deposit_amount,
                            profit_share,
                            hurdle_rate,
                            spot_market_index,
                            permissioned,
                        },
                    )
                },
                None => Err(ErrorCode::InvalidInput),
            }
        } else if variant == 1 {
            Ok(VaultInstruction::InitializeVaultDepositor)
        } else if variant == 2 || variant == 7 {
            match read_name_amount(input) {
                Some((name, amount)) => if variant == 2 {
                    Ok(VaultInstruction::Deposit { name, amount })
                } else {
                    Ok(VaultInstruction::ManagerDeposit { name, amount })
                },
                None => Err(ErrorCode::InvalidInput),
            }
        } else if variant == 3 || variant == 8 || variant == 9 {
            match read_amount(input) {
                Some(amount) => if variant == 3 {
                    Ok(VaultInstruction::WithdrawRequest { amount })
                } else if variant == 8 {
                    Ok(VaultInstruction::ManagerWithdraw { amount })
                } else {
                    Ok(VaultInstruction::CollectFees { amount })
                },
                None => Err(ErrorCode::InvalidInput),
            }
        } else if variant == 4 {
            Ok(VaultInstruction::CancelWithdrawRequest)
        } else if variant == 5 {
            Ok(VaultInstruction::Withdraw)
        } else if variant == 6 {
            match read_delegate_fields(input) {
                Some((name, delegate, sub_account)) => Ok(
                    VaultInstruction::UpdateDelegate { name, delegate, sub_account },
                ),
                None => Err(ErrorCode::InvalidInput),
            }
        } else if variant == 10 {
            match read_update_fields(input) {
                Some(
                    (
                        lock_in_period, redeem_period, max_tokens, management_fee,
                        min_deposit_amount, profit_share, hurdle_rate, permissioned
                    ),
                ) => {
                    Ok(
                        VaultInstruction::UpdateVault {
                            lock_in_period,
                            redeem_period,
                            max_tokens,
                            management_fee,
                            min_deposit_amount,
                            profit_share,
                            hurdle_rate,
                            permissioned,
                        },
                    )
                },
                None => Err(ErrorCode::InvalidInput),
            }
        } else if variant == 11 {
            Ok(VaultInstruction::ResetDelegate)
        } else {
            Err(ErrorCode::InvalidInput)
        }
    }
}

proof fn lemma_update_layout(
    b: Seq<u8>,
    l: u64,
    rp: u64,
    mt: u64,
    mf: u64,
    md: u64,
    ps: u32,
    hr: u32,
    pm: bool,
)
    requires
        b.len() >= 1,
        b.drop_first() == update_bytes(l, rp, mt, mf, md, ps, hr, pm),
    ensures
        b.subrange(1, 9) == le_bytes(l as nat, 8),
        b.subrange(9, 17) == le_bytes(rp as nat, 8),
        b.subrange(17, 25) == le_bytes(mt as nat, 8),
        b.subrange(25, 33) == le_bytes(mf as nat, 8),
        b.subrange(33, 41) == le_bytes(md as nat, 8),
        b.subrange(41, 45) == le_bytes(ps as nat, 4),
        b.subrange(45, 49) == le_bytes(hr as nat, 4),
        b.subrange(49, 50) == bool_bytes(pm),
        b.len() == 50,
{
    lemma_pow256_small();
    lemma_le_value_of_bytes(l as nat, 8);
    lemma_le_value_of_bytes(rp as nat, 8);
    lemma_le_value_of_bytes(mt as nat, 8);
    lemma_le_value_of_bytes(mf as nat, 8);
    lemma_le_value_of_bytes(md as nat, 8);
    lemma_le_value_of_bytes(ps as nat, 4);
    lemma_le_value_of_bytes(hr as nat, 4);
    assert(b.drop_first() =~= b.subrange(1, b.len() as int));
    let r8 = bool_bytes(pm);
    let r7 = le_bytes(hr as nat, 4) + r8;
    let r6 = le_bytes(ps as nat, 4) + r7;
    let r5 = le_bytes(md as nat, 8) + r6;
    let r4 = le_bytes(mf as nat, 8) + r5;
    let r3 = le_bytes(mt as nat, 8) + r4;
    let r2 = le_bytes(rp as nat, 8) + r3;
    lemma_split_at(b, 1, le_bytes(l as nat, 8), r2);
    lemma_split_at(b, 9, le_bytes(rp as nat, 8), r3);
    lemma_split_at(b, 17, le_bytes(mt as nat, 8), r4);
    lemma_split_at(b, 25, le_bytes(mf as nat, 8), r5);
    lemma_split_at(b, 33, le_bytes(md as nat, 8), r6);
    lemma_split_at(b, 41, le_bytes(ps as nat, 4), r7);
    lemma_split_at(b, 45, le_bytes(hr as nat, 4), r8);
}

/// Reads the fields of a parameter update after the tag.
fn read_update_fields(input: &[u8]) -> (r: Option<(u64, u64, u64, u64, u64, u32, u32, bool)>)
    requires
        input@.len() >= 1,
    ensures
        r matches Some((l, rp, mt, mf, md, ps, hr, pm)) ==> input@.drop_first() == update_bytes(
            l,
            rp,
            mt,
            mf,
            md,
            ps,
            hr,
            pm,
        ),
        forall|l: u64, rp: u64, mt: u64, mf: u64, md: u64, ps: u32, hr: u32, pm: bool|
            input@.drop_first() == update_bytes(l, rp, mt, mf, md, ps, hr, pm) ==> (r matches Some(
                (l2, rp2, mt2, mf2, md2, ps2, hr2, pm2),
            ) && l2 == l && rp2 == rp && mt2 == mt && mf2 == mf && md2 == md && ps2 == ps && hr2
                == hr && pm2 == pm),
{
    let ghost b = input@;
    proof {
        lemma_pow256_small();
    }
    let (lock_in_period, at1) = match read_le(input, 1, 8) {
        Some(x) => x,
        None => {
            proof {
                assert forall|l: u64, rp: u64, mt: u64, mf: u64, md: u64, ps: u32, hr: u32,
                    pm: bool|
                    b.drop_first() == update_bytes(l, rp, mt, mf, md, ps, hr, pm)
                    implies false by {
                    lemma_update_layout(b, l, rp, mt, mf, md, ps, hr, pm);
                }
            }
            return None;
        },
    };
    let (redeem_period, at2) = match read_le(input, at1, 8) {
        Some(x) => x,
        None => {
            proof {
                assert forall|l: u64, rp: u64, mt: u64, mf: u64, md: u64, ps: u32, hr: u32,
                    pm: bool|
                    b.drop_first() == update_bytes(l, rp, mt, mf, md, ps, hr, pm)
                    implies false by {
                    lemma_update_layout(b, l, rp, mt, mf, md, ps, hr, pm);
                }
            }
            return None;
        },
    };
    let (max_tokens, at3) = match read_le(input, at2, 8) {
        Some(x) => x,
        None => {
            proof {
                assert forall|l: u64, rp: u64, mt: u64, mf: u64, md: u64, ps: u32, hr: u32,
                    pm: bool|
                    b.drop_first() == update_bytes(l, rp, mt, mf, md, ps, hr, pm)
                    implies false by {
                    lemma_update_layout(b, l, rp, mt, mf, md, ps, hr, pm);
                }
            }
            return None;
        },
    };
    let (management_fee, at4) = match read_le(input, at3, 8) {
        Some(x) => x,
        None => {
            proof {
                assert forall|l: u64, rp: u64, mt: u64, mf: u64, md: u64, ps: u32, hr: u32,
                    pm: bool|
                    b.drop_first() == update_bytes(l, rp, mt, mf, md, ps, hr, pm)
                    implies false by {
                    lemma_update_layout(b, l, rp, mt, mf, md, ps, hr, pm);
                }
            }
            return None;
        },
    };
    let (min_deposit_amount, at5) = match read_le(input, at4, 8) {
        Some(x) => x,
        None => {
            proof {
                assert forall|l: u64, rp: u64, mt: u64, mf: u64, md: u64, ps: u32, hr: u32,
                    pm: bool|
                    b.drop_first() == update_bytes(l, rp, mt, mf, md, ps, hr, pm)
                    implies false by {
                    lemma_update_layout(b, l, rp, mt, mf, md, ps, hr, pm);
                }
            }
            return None;
        },
    };
    let (profit_share, at6) = match read_le(input, at5, 4) {
        Some(x) => x,
        None => {
            proof {
                assert forall|l: u64, rp: u64, mt: u64, mf: u64, md: u64, ps: u32, hr: u32,
                    pm: bool|
                    b.drop_first() == update_bytes(l, rp, mt, mf, md, ps, hr, pm)
                    implies false by {
                    lemma_update_layout(b, l, rp, mt, mf, md, ps, hr, pm);
                }
            }
            return None;
        },
    };
    let (hurdle_rate, at7) = match read_le(input, at6, 4) {
        Some(x) => x,
        None => {
            proof {
                assert forall|l: u64, rp: u64, mt: u64, mf: u64, md: u64, ps: u32, hr: u32,
                    pm: bool|
                    b.drop_first() == update_bytes(l, rp, mt, mf, md, ps, hr, pm)
                    implies false by {
                    lemma_update_layout(b, l, rp, mt, mf, md, ps, hr, pm);
                }
            }
            return None;
        },
    };
    let (permissioned, at8) = match read_bool(input, at7) {
        Some(x) => x,
        None => {
            proof {
                assert forall|l: u64, rp: u64, mt: u64, mf: u64, md: u64, ps: u32, hr: u32,
                    pm: bool|
                    b.drop_first() == update_bytes(l, rp, mt, mf, md, ps, hr, pm)
                    implies false by {
                    lemma_update_layout(b, l, rp, mt, mf, md, ps, hr, pm);
                }
            }
            return None;
        },
    };
    if at8 != input.len() {
        proof {
            assert forall|l: u64, rp: u64, mt: u64, mf: u64, md: u64, ps: u32, hr: u32,
                pm: bool|
                b.drop_first() == update_bytes(l, rp, mt, mf, md, ps, hr, pm)
                implies false by {
                lemma_update_layout(b, l, rp, mt, mf, md, ps, hr, pm);
            }
        }
        return None;
    }
    proof {
        lemma_join(b, 1, at1 as int, at2 as int);
        lemma_join(b, 1, at2 as int, at8 as int);
        lemma_join(b, at2 as int, at3 as int, at8 as int);
        lemma_join(b, at3 as int, at4 as int, at8 as int);
        lemma_join(b, at4 as int, at5 as int, at8 as int);
        lemma_join(b, at5 as int, at6 as int, at8 as int);
        lemma_join(b, at6 as int, at7 as int, at8 as int);
        lemma_join(b, 1, at1 as int, at8 as int);
        lemma_join(b, at1 as int, at2 as int, at8 as int);
        assert(b.drop_first() =~= b.subrange(1, b.len() as int));
        assert forall|l: u64, rp: u64, mt: u64, mf: u64, md: u64, ps: u32, hr: u32, pm: bool|
            b.drop_first() == update_bytes(l, rp, mt, mf, md, ps, hr, pm)
            implies lock_in_period == l && redeem_period == rp
            && max_tokens == mt && management_fee == mf && min_deposit_amount == md
            && profit_share == ps && hurdle_rate == hr && permissioned == pm by {
            lemma_update_layout(b, l, rp, mt, mf, md, ps, hr, pm);
        }
    }
    Some(
        (
            lock_in_period,
            redeem_period,
            max_tokens,
            management_fee,
            min_deposit_amount,
            profit_share as u32,
            hurdle_rate as u32,
            permissioned,
        ),
    )
}

} // verus!
