use drift_vault::error::ErrorCode;
use drift_vault::instruction::VaultInstruction;

fn string_field(s: &str) -> Vec<u8> {
    let mut out = (s.len() as u32).to_le_bytes().to_vec();
    out.extend_from_slice(s.as_bytes());
    out
}

#[test]
fn decodes_deposit_and_manager_deposit() {
    let mut data = vec![2u8];
    data.extend(string_field("alpha"));
    data.extend(1_500u64.to_le_bytes());
    match VaultInstruction::unpack(&data) {
        Ok(VaultInstruction::Deposit { name, amount }) => {
            assert_eq!(name, "alpha");
            assert_eq!(amount, 1_500);
        }
        _ => panic!("expected a deposit"),
    }
    data[0] = 7;
    assert!(matches!(
        VaultInstruction::unpack(&data),
        Ok(VaultInstruction::ManagerDeposit { amount: 1_500, .. })
    ));
}

#[test]
fn decodes_vault_creation() {
    let mut data = vec![0u8];
    data.extend(string_field("vault-é"));
    for v in [10u64, 20, 30, 40_000, 50] {
        data.extend(v.to_le_bytes());
    }
    data.extend(100_000u32.to_le_bytes());
    data.extend(7u32.to_le_bytes());
    data.extend(3u16.to_le_bytes());
    data.push(1);
    match VaultInstruction::unpack(&data) {
        Ok(VaultInstruction::InitializeDriftWithBulk {
            name,
            lock_in_period,
            redeem_period,
            max_tokens,
            management_fee,
            min_deposit_amount,
            profit_share,
            hurdle_rate,
            spot_market_index,
            permissioned,
        }) => {
            assert_eq!(name, "vault-é");
            assert_eq!(
                (lock_in_period, redeem_period, max_tokens, management_fee, min_deposit_amount),
                (10, 20, 30, 40_000, 50)
            );
            assert_eq!((profit_share, hurdle_rate, spot_market_index, permissioned), (100_000, 7, 3, true));
        }
        _ => panic!("expected a vault creation"),
    }
    let last = data.len() - 1;
    data[last] = 2;
    assert_eq!(VaultInstruction::unpack(&data).err(), Some(ErrorCode::InvalidInput));
}

#[test]
fn decodes_amounts_delegates_and_bare_tags() {
    let mut data = vec![3u8];
    data.extend(77u64.to_le_bytes());
    assert!(matches!(VaultInstruction::unpack(&data), Ok(VaultInstruction::WithdrawRequest { amount: 77 })));
    data[0] = 8;
    assert!(matches!(VaultInstruction::unpack(&data), Ok(VaultInstruction::ManagerWithdraw { amount: 77 })));
    let mut d = vec![6u8];
    d.extend(string_field("alpha"));
    d.extend(string_field("delegate-key"));
    d.extend(5u16.to_le_bytes());
    match VaultInstruction::unpack(&d) {
        Ok(VaultInstruction::UpdateDelegate { name, delegate, sub_account }) => {
            assert_eq!((name.as_str(), delegate.as_str(), sub_account), ("alpha", "delegate-key", 5));
        }
        _ => panic!("expected a delegate update"),
    }
    assert!(matches!(VaultInstruction::unpack(&[1]), Ok(VaultInstruction::InitializeVaultDepositor)));
    assert!(matches!(VaultInstruction::unpack(&[4, 9, 9]), Ok(VaultInstruction::CancelWithdrawRequest)));
    assert!(matches!(VaultInstruction::unpack(&[5]), Ok(VaultInstruction::Withdraw)));
}

#[test]
fn rejects_malformed_data() {
    assert_eq!(VaultInstruction::unpack(&[]).err(), Some(ErrorCode::InvalidInput));
    assert_eq!(VaultInstruction::unpack(&[9]).err(), Some(ErrorCode::InvalidInput));
    // truncated amount
    assert_eq!(VaultInstruction::unpack(&[3, 1, 2, 3]).err(), Some(ErrorCode::InvalidInput));
    // trailing byte
    let mut data = vec![3u8];
    data.extend(77u64.to_le_bytes());
    data.push(0);
    assert_eq!(VaultInstruction::unpack(&data).err(), Some(ErrorCode::InvalidInput));
    // name longer than the data
    let mut bad = vec![2u8];
    bad.extend(100u32.to_le_bytes());
    bad.extend(b"ab");
    assert_eq!(VaultInstruction::unpack(&bad).err(), Some(ErrorCode::InvalidInput));
    // name that is not UTF-8
    let mut raw = vec![2u8];
    raw.extend(2u32.to_le_bytes());
    raw.extend([0xff, 0xfe]);
    raw.extend(1u64.to_le_bytes());
    assert_eq!(VaultInstruction::unpack(&raw).err(), Some(ErrorCode::InvalidInput));
}

#[test]
fn decodes_manager_operations() {
    let mut fees = vec![9u8];
    fees.extend(5_000u64.to_le_bytes());
    assert!(matches!(VaultInstruction::unpack(&fees), Ok(VaultInstruction::CollectFees { amount: 5_000 })));
    let mut update = vec![10u8];
    for v in [1u64, 2, 3, 4, 5] {
        update.extend(v.to_le_bytes());
    }
    update.extend(6u32.to_le_bytes());
    update.extend(7u32.to_le_bytes());
    update.push(0);
    match VaultInstruction::unpack(&update) {
        Ok(VaultInstruction::UpdateVault {
            lock_in_period,
            redeem_period,
            max_tokens,
            management_fee,
            min_deposit_amount,
            profit_share,
            hurdle_rate,
            permissioned,
        }) => {
            assert_eq!((lock_in_period, redeem_period, max_tokens, management_fee, min_deposit_amount), (1, 2, 3, 4, 5));
            assert_eq!((profit_share, hurdle_rate, permissioned), (6, 7, false));
        }
        _ => panic!("expected a parameter update"),
    }
    update.pop();
    assert_eq!(VaultInstruction::unpack(&update).err(), Some(ErrorCode::InvalidInput));
    assert!(matches!(VaultInstruction::unpack(&[11]), Ok(VaultInstruction::ResetDelegate)));
    assert_eq!(VaultInstruction::unpack(&[12]).err(), Some(ErrorCode::InvalidInput));
}
