use std::str::FromStr;

use donation_dice::account::{AccountState, Action};
use donation_dice::error::{DecodeError, DonateError, ProgramError};
use donation_dice::instruction::DonationInstruction;
use donation_dice::key::{compare_keys, KeyOrder};
use donation_dice::map::DonationMap;
use donation_dice::pda::{id, ID, STORAGE_SEED};
use donation_dice::processor::Processor;
use donation_dice::state::Storage;
use solana_program::pubkey::Pubkey;

fn storage_key() -> [u8; 32] {
    Pubkey::find_program_address(&[STORAGE_SEED.as_bytes()], &Pubkey::new_from_array(ID))
        .0
        .to_bytes()
}

fn acc(key: [u8; 32], is_signer: bool, data: Vec<u8>) -> AccountState {
    AccountState { key, is_signer, data }
}

fn storage_bytes(donating: [u8; 32], entries: &[([u8; 32], u64)], len: usize) -> Vec<u8> {
    let mut v = donating.to_vec();
    v.extend_from_slice(&(entries.len() as u32).to_le_bytes());
    for (k, x) in entries {
        v.extend_from_slice(k);
        v.extend_from_slice(&x.to_le_bytes());
    }
    v.resize(len, 0);
    v
}

#[test]
fn program_id_matches_declared_address() {
    let declared = Pubkey::from_str("CVwg4yLYEW3WxHNPYo3ZtTcvYPnevm99DNwj8KeoVaAE").unwrap();
    assert_eq!(ID, declared.to_bytes());
    assert_eq!(id(), ID);
    assert_eq!(STORAGE_SEED, "storage");
    assert_eq!(Storage::LEN, 436);
}

#[test]
fn storage_address_is_the_program_address() {
    let (k, bump) = Pubkey::find_program_address(&[b"storage"], &Pubkey::new_from_array(ID));
    let (mk, mbump) = Storage::get_storage_pubkey_with_bump();
    assert_eq!(mk, k.to_bytes());
    assert_eq!(mbump, bump);
    assert_eq!(Storage::get_storage_pubkey(), k.to_bytes());
    assert_eq!(Storage::find_storage_pubkey(), Some(k.to_bytes()));
    assert!(Storage::is_ok_storage_pubkey(&k.to_bytes()));
    assert!(!Storage::is_ok_storage_pubkey(&ID));
}

#[test]
fn instruction_bytes() {
    let d = DonationInstruction::Donate { lamports: 0x0102030405060708 };
    assert_eq!(d.try_to_vec(), vec![0, 8, 7, 6, 5, 4, 3, 2, 1]);
    assert_eq!(DonationInstruction::try_from_slice(&d.try_to_vec()), Ok(d));
    let w = DonationInstruction::Withdraw { lamports: 10000 };
    assert_eq!(w.try_to_vec(), vec![1, 16, 39, 0, 0, 0, 0, 0, 0]);
    assert_eq!(DonationInstruction::try_from_slice(&w.try_to_vec()), Ok(w));
    assert_eq!(DonationInstruction::Initialize.try_to_vec(), vec![2]);
    assert_eq!(DonationInstruction::try_from_slice(&[2]), Ok(DonationInstruction::Initialize));
}

#[test]
fn instruction_decode_errors() {
    assert_eq!(DonationInstruction::try_from_slice(&[]), Err(DecodeError::UnexpectedLength));
    assert_eq!(DonationInstruction::try_from_slice(&[0, 1, 2]), Err(DecodeError::UnexpectedLength));
    assert_eq!(
        DonationInstruction::try_from_slice(&[1, 0, 0, 0, 0, 0, 0, 0, 0, 9]),
        Err(DecodeError::NotAllBytesRead)
    );
    assert_eq!(DonationInstruction::try_from_slice(&[2, 0]), Err(DecodeError::NotAllBytesRead));
    assert_eq!(DonationInstruction::try_from_slice(&[3]), Err(DecodeError::UnexpectedVariant(3)));
}

#[test]
fn donate_error_codes() {
    assert_eq!(ProgramError::from(DonateError::DonatingRequired), ProgramError::Custom(0));
    assert_eq!(ProgramError::from(DonateError::WrongStoragePDA), ProgramError::Custom(1));
    assert_eq!(ProgramError::from(DonateError::WrongDonatingAccount), ProgramError::Custom(2));
}

#[test]
fn key_order_is_lexicographic() {
    let mut a = [0u8; 32];
    let mut b = [0u8; 32];
    a[3] = 1;
    b[3] = 1;
    b[31] = 1;
    assert_eq!(compare_keys(&a, &b), KeyOrder::Less);
    assert_eq!(compare_keys(&b, &a), KeyOrder::Greater);
    assert_eq!(compare_keys(&a, &a), KeyOrder::Equal);
    assert_eq!(compare_keys(&a, &b) == KeyOrder::Less, Pubkey::new_from_array(a) < Pubkey::new_from_array(b));
}

#[test]
fn ledger_keeps_keys_sorted_and_unique() {
    let mut m = DonationMap::new();
    m.insert([5; 32], 1);
    m.insert([2; 32], 2);
    m.insert([9; 32], 3);
    m.insert([5; 32], 7);
    assert_eq!(m.len(), 3);
    assert_eq!(m.entry(0), ([2; 32], 2));
    assert_eq!(m.entry(1), ([5; 32], 7));
    assert_eq!(m.entry(2), ([9; 32], 3));
    assert_eq!(m.get(&[5; 32]), Some(7));
    assert_eq!(m.get(&[4; 32]), None);
}

#[test]
fn storage_read_and_write() {
    let data = storage_bytes([7; 32], &[([1; 32], 300), ([3; 32], 5)], Storage::LEN);
    let s = Storage::try_from_slice_unchecked(&data).unwrap();
    assert_eq!(s.donating_acc, [7; 32]);
    assert_eq!(s.map.len(), 2);
    assert_eq!(s.map.get(&[1; 32]), Some(300));
    assert_eq!(s.map.get(&[3; 32]), Some(5));
    let enc = s.to_bytes();
    assert_eq!(enc.len(), 36 + 80);
    assert_eq!(&enc[..], &data[..116]);
    let mut old = vec![9u8; Storage::LEN];
    old[200] = 4;
    let written = s.write_to(&old);
    assert_eq!(&written[..116], &enc[..]);
    assert_eq!(&written[116..], &old[116..]);
    let back = Storage::try_from_slice_unchecked(&written).unwrap();
    assert_eq!(back.to_bytes(), enc);
}

#[test]
fn storage_read_fills_a_map_in_order() {
    // unsorted entries with a repeated key: the later value wins, the result is sorted
    let data = storage_bytes([0; 32], &[([3; 32], 1), ([1; 32], 2), ([3; 32], 4)], 200);
    let s = Storage::try_from_slice_unchecked(&data).unwrap();
    assert_eq!(s.map.len(), 2);
    assert_eq!(s.map.entry(0), ([1; 32], 2));
    assert_eq!(s.map.entry(1), ([3; 32], 4));
}

#[test]
fn storage_read_errors() {
    assert_eq!(
        Storage::try_from_slice_unchecked(&[0u8; 35]).err(),
        Some(DecodeError::UnexpectedLength)
    );
    let mut data = vec![0u8; 100];
    data[32] = 2; // two entries need 116 bytes
    assert_eq!(Storage::try_from_slice_unchecked(&data).err(), Some(DecodeError::UnexpectedLength));
    assert!(Storage::try_from_slice_unchecked(&vec![0u8; Storage::LEN]).is_ok());
}

#[test]
fn storage_write_is_cut_at_the_account_end() {
    let mut s = Storage { donating_acc: [1; 32], map: DonationMap::new() };
    for i in 0..11u8 {
        s.map.insert([i + 10; 32], i as u64);
    }
    let enc = s.to_bytes();
    assert_eq!(enc.len(), 36 + 440);
    let written = s.write_to(&vec![0u8; Storage::LEN]);
    assert_eq!(written.len(), Storage::LEN);
    assert_eq!(&written[..], &enc[..Storage::LEN]);
    // the eleventh donor does not fit: the storage no longer reads back
    assert_eq!(Storage::try_from_slice_unchecked(&written).err(), Some(DecodeError::UnexpectedLength));
}

fn donate(lamports: u64) -> Vec<u8> {
    DonationInstruction::Donate { lamports }.try_to_vec()
}

#[test]
fn initialize_creates_and_writes_storage() {
    let admin = [11u8; 32];
    let accounts = vec![
        acc(admin, true, vec![]),
        acc([12; 32], false, vec![]),
        acc(storage_key(), false, vec![]),
        acc([20; 32], false, vec![]),
        acc([0; 32], false, vec![]),
    ];
    let r = Processor::process(&ID, &accounts, &[2]).unwrap();
    assert_eq!(r.len(), 2);
    let (_, bump) = Storage::get_storage_pubkey_with_bump();
    match &r[0] {
        Action::CreateAccount { payer, new_account, rent, space, owner, bump: b, accounts } => {
            assert_eq!((*payer, *new_account, *rent, *space), (0, 2, 3, 436));
            assert_eq!(*owner, ID);
            assert_eq!(*b, bump);
            assert_eq!(accounts, &vec![0, 2, 4]);
        }
        _ => panic!("expected an account creation"),
    }
    match &r[1] {
        Action::WriteData { account, data } => {
            assert_eq!(*account, 2);
            assert_eq!(data, &storage_bytes(admin, &[], Storage::LEN));
        }
        _ => panic!("expected a write"),
    }
}

#[test]
fn initialize_resets_existing_storage() {
    let admin = [11u8; 32];
    let old = storage_bytes([3; 32], &[([1; 32], 5)], Storage::LEN);
    let accounts = vec![
        acc(admin, true, vec![]),
        acc([12; 32], false, vec![]),
        acc(storage_key(), false, old),
        acc([20; 32], false, vec![]),
        acc([0; 32], false, vec![]),
    ];
    let r = Processor::try_process(&ID, &accounts, &[2]).unwrap().unwrap();
    assert_eq!(r.len(), 1);
    match &r[0] {
        Action::WriteData { account, data } => {
            assert_eq!(*account, 2);
            // header rewritten, the stale entry bytes after it remain
            let mut expected = storage_bytes(admin, &[], 36);
            expected.extend_from_slice(&storage_bytes([3; 32], &[([1; 32], 5)], Storage::LEN)[36..]);
            assert_eq!(data, &expected);
            let s = Storage::try_from_slice_unchecked(data).unwrap();
            assert_eq!(s.donating_acc, admin);
            assert_eq!(s.map.len(), 0);
        }
        _ => panic!("expected a write"),
    }
}

#[test]
fn initialize_errors() {
    let admin = [11u8; 32];
    let wallet = [12u8; 32];
    let four = vec![
        acc(admin, true, vec![]),
        acc(wallet, false, vec![]),
        acc(storage_key(), false, vec![]),
        acc([2; 32], false, vec![]),
    ];
    assert_eq!(Processor::process(&ID, &four, &[2]), Err(ProgramError::NotEnoughAccountKeys));
    let wrong_pda = vec![
        acc(admin, true, vec![]),
        acc(storage_key(), false, vec![]),
        acc([1; 32], false, vec![]),
        acc([2; 32], false, vec![]),
        acc([0; 32], false, vec![]),
    ];
    assert_eq!(Processor::process(&ID, &wrong_pda, &[2]), Err(ProgramError::Custom(1)));
    let unsigned = vec![
        acc(admin, false, vec![]),
        acc(wallet, false, vec![]),
        acc(storage_key(), false, vec![]),
        acc([2; 32], false, vec![]),
        acc([0; 32], false, vec![]),
    ];
    assert_eq!(Processor::process(&ID, &unsigned, &[2]), Err(ProgramError::MissingRequiredSignature));
    let bad_data = vec![
        acc(admin, true, vec![]),
        acc(wallet, false, vec![]),
        acc(storage_key(), false, vec![1, 2, 3]),
        acc([2; 32], false, vec![]),
        acc([0; 32], false, vec![]),
    ];
    assert_eq!(
        Processor::process(&ID, &bad_data, &[2]),
        Err(ProgramError::BorshIoError(DecodeError::UnexpectedLength))
    );
}

#[test]
fn initialize_twice_writes_the_same_data() {
    let admin = [11u8; 32];
    let mut accounts = vec![
        acc(admin, true, vec![]),
        acc([12; 32], false, vec![]),
        acc(storage_key(), false, vec![]),
        acc([20; 32], false, vec![]),
        acc([0; 32], false, vec![]),
    ];
    let first = Processor::process(&ID, &accounts, &[2]).unwrap();
    let written = match &first[1] {
        Action::WriteData { data, .. } => data.clone(),
        _ => panic!("expected a write"),
    };
    accounts[2].data = written.clone();
    let second = Processor::process(&ID, &accounts, &[2]).unwrap();
    assert_eq!(second, vec![Action::WriteData { account: 2, data: written }]);
}

fn donated(storage: &[u8], donor: [u8; 32], donating: [u8; 32], amount: u64) -> Vec<u8> {
    let accounts = vec![acc(donor, true, vec![]), acc(donating, false, vec![]), acc(storage_key(), false, storage.to_vec())];
    match &Processor::process(&ID, &accounts, &donate(amount)).unwrap()[0] {
        Action::WriteData { data, .. } => data.clone(),
        _ => panic!("expected a write"),
    }
}

#[test]
fn donations_commute() {
    let admin = [11u8; 32];
    let s = storage_bytes(admin, &[([7; 32], 1)], Storage::LEN);
    let ab = donated(&donated(&s, [30; 32], admin, 4), [25; 32], admin, 9);
    let ba = donated(&donated(&s, [25; 32], admin, 9), [30; 32], admin, 4);
    assert_eq!(ab, ba);
    let same = donated(&donated(&s, [7; 32], admin, 4), [7; 32], admin, 9);
    assert_eq!(same, storage_bytes(admin, &[([7; 32], 14)], Storage::LEN));
}

#[test]
fn donations_accumulate_per_donor() {
    let admin = [11u8; 32];
    let a = [30u8; 32];
    let b = [25u8; 32];
    let mut storage = storage_bytes(admin, &[], Storage::LEN);
    for (donor, amount) in [(a, 10000u64), (b, 10000), (a, 5)] {
        let accounts = vec![
            acc(donor, true, vec![]),
            acc(admin, false, vec![]),
            acc(storage_key(), false, storage.clone()),
        ];
        let r = Processor::process(&ID, &accounts, &donate(amount)).unwrap();
        assert_eq!(r.len(), 2);
        match &r[1] {
            Action::Transfer { from, to, lamports, accounts } => {
                assert_eq!((*from, *to, *lamports), (0, 1, amount));
                assert_eq!(accounts, &vec![0, 1]);
            }
            _ => panic!("expected a transfer"),
        }
        match &r[0] {
            Action::WriteData { account, data } => {
                assert_eq!(*account, 2);
                storage = data.clone();
            }
            _ => panic!("expected a write"),
        }
    }
    assert_eq!(storage, storage_bytes(admin, &[(b, 10000), (a, 10005)], Storage::LEN));
}

#[test]
fn donation_before_initialisation_is_accepted() {
    let accounts = vec![
        acc([30; 32], true, vec![]),
        acc([44; 32], false, vec![]),
        acc(storage_key(), false, vec![0; Storage::LEN]),
    ];
    let r = Processor::process(&ID, &accounts, &donate(3)).unwrap();
    match &r[0] {
        Action::WriteData { data, .. } => {
            assert_eq!(data, &storage_bytes([0; 32], &[([30; 32], 3)], Storage::LEN))
        }
        _ => panic!("expected a write"),
    }
}

#[test]
fn donation_errors() {
    let admin = [11u8; 32];
    let storage = storage_bytes(admin, &[], Storage::LEN);
    let two = vec![acc([30; 32], true, vec![]), acc(admin, false, vec![])];
    assert_eq!(Processor::process(&ID, &two, &donate(1)), Err(ProgramError::NotEnoughAccountKeys));
    let wrong_pda = vec![acc([30; 32], true, vec![]), acc(admin, false, vec![]), acc([1; 32], false, storage.clone())];
    assert_eq!(Processor::process(&ID, &wrong_pda, &donate(1)), Err(ProgramError::Custom(1)));
    let unsigned = vec![acc([30; 32], false, vec![]), acc(admin, false, vec![]), acc(storage_key(), false, storage.clone())];
    assert_eq!(Processor::process(&ID, &unsigned, &donate(1)), Err(ProgramError::MissingRequiredSignature));
    let other = vec![acc([30; 32], true, vec![]), acc([12; 32], false, vec![]), acc(storage_key(), false, storage.clone())];
    assert_eq!(Processor::process(&ID, &other, &donate(1)), Err(ProgramError::Custom(0)));
    let short = vec![acc([30; 32], true, vec![]), acc(admin, false, vec![]), acc(storage_key(), false, vec![0; 10])];
    assert_eq!(
        Processor::process(&ID, &short, &donate(1)),
        Err(ProgramError::BorshIoError(DecodeError::UnexpectedLength))
    );
    assert_eq!(
        Processor::process(&ID, &two, &[7]),
        Err(ProgramError::BorshIoError(DecodeError::UnexpectedVariant(7)))
    );
}

#[test]
fn donation_total_overflow_aborts() {
    let admin = [11u8; 32];
    let storage = storage_bytes(admin, &[([30; 32], u64::MAX - 1)], Storage::LEN);
    let accounts = vec![acc([30; 32], true, vec![]), acc(admin, false, vec![]), acc(storage_key(), false, storage)];
    assert!(Processor::try_process(&ID, &accounts, &donate(2)).is_none());
    assert!(Processor::try_process(&ID, &accounts, &donate(1)).unwrap().is_ok());
}

#[test]
fn withdraw_by_donating_account() {
    let admin = [11u8; 32];
    let storage = storage_bytes(admin, &[([30; 32], 7)], Storage::LEN);
    let w = DonationInstruction::Withdraw { lamports: 10000 }.try_to_vec();
    let accounts = vec![
        acc(admin, true, vec![]),
        acc([12; 32], false, vec![]),
        acc(storage_key(), false, storage.clone()),
        acc([0; 32], false, vec![]),
    ];
    let r = Processor::process(&ID, &accounts, &w).unwrap();
    assert_eq!(r.len(), 1);
    match &r[0] {
        Action::Transfer { from, to, lamports, accounts } => {
            assert_eq!((*from, *to, *lamports), (0, 1, 10000));
            assert_eq!(accounts, &vec![0, 1, 3]);
        }
        _ => panic!("expected a transfer"),
    }
    let thief = vec![
        acc([30; 32], true, vec![]),
        acc([12; 32], false, vec![]),
        acc(storage_key(), false, storage.clone()),
        acc([0; 32], false, vec![]),
    ];
    assert_eq!(Processor::process(&ID, &thief, &w), Err(ProgramError::Custom(2)));
    let unsigned = vec![
        acc(admin, false, vec![]),
        acc([12; 32], false, vec![]),
        acc([1; 32], false, storage),
        acc([0; 32], false, vec![]),
    ];
    assert_eq!(Processor::process(&ID, &unsigned, &w), Err(ProgramError::MissingRequiredSignature));
}
