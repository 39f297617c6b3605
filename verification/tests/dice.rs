use donation_dice::account::{AccountState, Action};
use donation_dice::bid_text::parse_bid;
use donation_dice::dice::{process_instruction, try_process_instruction, Bid};
use donation_dice::error::{DecodeError, ProgramError};

fn players() -> Vec<AccountState> {
    vec![
        AccountState { key: [1; 32], is_signer: true, data: vec![] },
        AccountState { key: [2; 32], is_signer: true, data: vec![] },
        AccountState { key: [0; 32], is_signer: false, data: vec![] },
    ]
}

fn transfer(r: &[Action]) -> (usize, usize, u64, Vec<usize>) {
    assert_eq!(r.len(), 1);
    match &r[0] {
        Action::Transfer { from, to, lamports, accounts } => (*from, *to, *lamports, accounts.clone()),
        _ => panic!("expected a transfer"),
    }
}

#[test]
fn bid_bytes() {
    let b = Bid { lamports: 0x01020304, dice: 6 };
    assert_eq!(b.try_to_vec(), vec![4, 3, 2, 1, 6]);
    assert_eq!(Bid::try_from_slice(&[4, 3, 2, 1, 6]), Ok(b));
    assert_eq!(Bid::try_from_slice(&[4, 3, 2, 1]), Err(DecodeError::UnexpectedLength));
    assert_eq!(Bid::try_from_slice(&[4, 3, 2, 1, 6, 0]), Err(DecodeError::NotAllBytesRead));
}

#[test]
fn losing_throw_pays_the_casino() {
    let data = Bid { lamports: 1000, dice: 3 }.try_to_vec();
    let r = process_instruction(&[9; 32], &players(), &data).unwrap();
    assert_eq!(transfer(&r), (0, 1, 1000, vec![0, 1]));
}

#[test]
fn six_pays_five_times_the_bet() {
    let data = Bid { lamports: 1000, dice: 6 }.try_to_vec();
    let r = process_instruction(&[9; 32], &players(), &data).unwrap();
    assert_eq!(transfer(&r), (1, 0, 5000, vec![1, 0]));
}

#[test]
fn dice_errors() {
    assert_eq!(
        process_instruction(&[9; 32], &players(), &[1, 0]),
        Err(ProgramError::BorshIoError(DecodeError::UnexpectedLength))
    );
    let data = Bid { lamports: 1, dice: 2 }.try_to_vec();
    assert_eq!(process_instruction(&[9; 32], &players()[..1], &data), Err(ProgramError::NotEnoughAccountKeys));
}

#[test]
fn oversized_winning_bet_aborts() {
    let big = Bid { lamports: u32::MAX / 5 + 1, dice: 6 }.try_to_vec();
    assert!(try_process_instruction(&[9; 32], &players(), &big).is_none());
    let edge = Bid { lamports: u32::MAX / 5, dice: 6 }.try_to_vec();
    let r = try_process_instruction(&[9; 32], &players(), &edge).unwrap().unwrap();
    assert_eq!(transfer(&r), (1, 0, (u32::MAX / 5 * 5) as u64, vec![1, 0]));
    let lose = Bid { lamports: u32::MAX, dice: 1 }.try_to_vec();
    assert!(try_process_instruction(&[9; 32], &players(), &lose).unwrap().is_ok());
}

#[test]
fn typed_bids_read_as_std_parses_them() {
    let cases = [
        "42\n", " 42 ", "+7", "-1", "", "+", "4294967295", "4294967296", "abc", "12a",
        "\u{3000}12\u{A0}\r\n", "007", " 1 2 ", "\t\n",
    ];
    for c in cases {
        assert_eq!(parse_bid(c), c.trim().parse::<u32>().ok(), "input {:?}", c);
    }
    assert_eq!(parse_bid("  1500\n"), Some(1500));
}
