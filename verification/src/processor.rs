//! The donation program's instruction processing.
use vstd::prelude::*;
use crate::account::{AccountState, Action, ActionView, checked_outcome_view, outcome_view};
use crate::error::{DecodeError, DonateError, ProgramError};
use crate::bytes::u64_le_bytes;
use crate::instruction::{
    DonationInstruction, decode_instruction, encode_instruction, lemma_instruction_roundtrip,
};
use crate::key::{Key, is_zero_key, keys_equal, zero_key};
use crate::map::{
    DonationMap, as_map, is_sorted, keys_sized, lemma_as_map_insert, lemma_insert_len,
    lemma_insert_commute, lemma_insert_overwrite, lemma_insert_sized, lemma_insert_sorted,
    lemma_lookup_insert_other, lemma_lookup_insert_same, lookup, sorted_insert,
};
use crate::pda::{ID, STORAGE_SEED, try_find_program_address};
use crate::state::{
    Storage, StorageView, decode_storage, encode_storage, lemma_decoded_wf, lemma_encode_layout,
    lemma_write_then_read, overwrite_prefix, storage_address,
};

verus! {

/// `Storage::LEN` zero bytes: the data of a freshly created storage account.
pub open spec fn fresh_storage_data() -> Seq<u8> {
    Seq::new(436, |i: int| 0u8)
}

/// Whether `user`'s total after donating `lamports` fits in a `u64`.
pub open spec fn donation_fits(st: StorageView, user: Seq<u8>, lamports: u64) -> bool {
    lookup(st.entries, user) is Some ==> lookup(st.entries, user).unwrap() + lamports <= u64::MAX
}

/// `user`'s total after donating `lamports`: the earlier total plus the amount,
/// or the amount for a new donor.
pub open spec fn donation_total(st: StorageView, user: Seq<u8>, lamports: u64) -> u64 {
    if lookup(st.entries, user) is Some {
        (lookup(st.entries, user).unwrap() + lamports) as u64
    } else {
        lamports
    }
}

/// The storage after `user` donates `lamports`.
pub open spec fn donate_view(st: StorageView, user: Seq<u8>, lamports: u64) -> StorageView {
    StorageView {
        donating_acc: st.donating_acc,
        entries: sorted_insert(st.entries, user, donation_total(st, user, lamports)),
    }
}

/// The storage account data after `user` donates `lamports`, from data `d`.
pub open spec fn donation_write(d: Seq<u8>, user: Seq<u8>, lamports: u64) -> Seq<u8> {
    overwrite_prefix(d, encode_storage(donate_view(decode_storage(d).unwrap(), user, lamports)))
}

/// What a donation does. `None` where the program aborts: no storage address
/// exists, or the donor's total would pass `u64::MAX`.
pub open spec fn spec_donation(accounts: Seq<AccountState>, lamports: u64) -> Option<
    Result<Seq<ActionView>, ProgramError>,
> {
    if accounts.len() < 3 {
        Some(Err(ProgramError::NotEnoughAccountKeys))
    } else {
        match storage_address() {
            None => None,
            Some(addr) => if accounts[2].key@ != addr.0 {
                Some(Err(ProgramError::Custom(1)))
            } else if !accounts[0].is_signer {
                Some(Err(ProgramError::MissingRequiredSignature))
            } else {
                match decode_storage(accounts[2].data@) {
                    Err(e) => Some(Err(ProgramError::BorshIoError(e))),
                    Ok(st) => if st.donating_acc != accounts[1].key@ && st.donating_acc
                        != zero_key() {
                        Some(Err(ProgramError::Custom(0)))
                    } else {
                        let user = accounts[0].key@;
                        if !donation_fits(st, user, lamports) {
                            None
                        } else {
                            Some(
                                Ok(
                                    seq![
                                        ActionView::WriteData {
                                            account: 2,
                                            data: overwrite_prefix(
                                                accounts[2].data@,
                                                encode_storage(donate_view(st, user, lamports)),
                                            ),
                                        },
                                        ActionView::Transfer {
                                            from: 0,
                                            to: 1,
                                            lamports,
                                            accounts: seq![0usize, 1usize],
                                        },
                                    ],
                                ),
                            )
                        }
                    },
                }
            },
        }
    }
}

/// What a withdrawal does. `None` where the program aborts: no storage address exists.
pub open spec fn spec_withdraw(accounts: Seq<AccountState>, lamports: u64) -> Option<
    Result<Seq<ActionView>, ProgramError>,
> {
    if accounts.len() < 4 {
        Some(Err(ProgramError::NotEnoughAccountKeys))
    } else if !accounts[0].is_signer {
        Some(Err(ProgramError::MissingRequiredSignature))
    } else {
        match storage_address() {
            None => None,
            Some(addr) => if accounts[2].key@ != addr.0 {
                Some(Err(ProgramError::Custom(1)))
            } else {
                match decode_storage(accounts[2].data@) {
                    Err(e) => Some(Err(ProgramError::BorshIoError(e))),
                    Ok(st) => if st.donating_acc != accounts[0].key@ {
                        Some(Err(ProgramError::Custom(2)))
                    } else {
                        Some(
                            Ok(
                                seq![
                                    ActionView::Transfer {
                                        from: 0,
                                        to: 1,
                                        lamports,
                                        accounts: seq![0usize, 1usize, 3usize],
                                    },
                                ],
                            ),
                        )
                    },
                }
            },
        }
    }
}

/// What initialisation does. `None` where the program aborts: no storage address exists.
pub open spec fn spec_initialize(accounts: Seq<AccountState>) -> Option<
    Result<Seq<ActionView>, ProgramError>,
> {
    if accounts.len() < 5 {
        Some(Err(ProgramError::NotEnoughAccountKeys))
    } else {
        match storage_address() {
            None => None,
            Some(addr) => if accounts[2].key@ != addr.0 {
                Some(Err(ProgramError::Custom(1)))
            } else if !accounts[0].is_signer {
                Some(Err(ProgramError::MissingRequiredSignature))
            } else {
                let created = accounts[2].data@.len() == 0;
                let data = if created {
                    fresh_storage_data()
                } else {
                    accounts[2].data@
                };
                match decode_storage(data) {
                    Err(e) => Some(Err(ProgramError::BorshIoError(e))),
                    Ok(_) => {
                        let new_st = StorageView {
                            donating_acc: accounts[0].key@,
                            entries: Seq::empty(),
                        };
                        let write = ActionView::WriteData {
                            account: 2,
                            data: overwrite_prefix(data, encode_storage(new_st)),
                        };
                        if created {
                            Some(
                                Ok(
                                    seq![
                                        ActionView::CreateAccount {
                                            payer: 0,
                                            new_account: 2,
                                            rent: 3,
                                            space: 436,
                                            owner: ID@,
                                            bump: addr.1,
                                            accounts: seq![0usize, 2usize, 4usize],
                                        },
                                        write,
                                    ],
                                ),
                            )
                        } else {
                            Some(Ok(seq![write]))
                        }
                    },
                }
            },
        }
    }
}

/// What an instruction of the donation program does with `accounts` and
/// instruction data `data`; `None` where the program aborts.
pub open spec fn spec_process(accounts: Seq<AccountState>, data: Seq<u8>) -> Option<
    Result<Seq<ActionView>, ProgramError>,
> {
    match decode_instruction(data) {
        Err(e) => Some(Err(ProgramError::BorshIoError(e))),
        Ok(DonationInstruction::Donate { lamports }) => spec_donation(accounts, lamports),
        Ok(DonationInstruction::Withdraw { lamports }) => spec_withdraw(accounts, lamports),
        Ok(DonationInstruction::Initialize) => spec_initialize(accounts),
    }
}

/// A successful donation writes the ledger back with the donor's total raised by
/// the amount (starting from zero for a new donor), every other total and the
/// donating account unchanged, and transfers the amount from the donor to the
/// donating account; this holds whenever the written ledger fits in the storage
/// account.
pub proof fn lemma_donation_records_total(accounts: Seq<AccountState>, lamports: u64)
    requires
        spec_donation(accounts, lamports) matches Some(Ok(_)),
        ({
            let st = decode_storage(accounts[2].data@).unwrap();
            let n = st.entries.len() + (if lookup(st.entries, accounts[0].key@) is Some {
                0int
            } else {
                1int
            });
            n <= u32::MAX && 36 + 40 * n <= accounts[2].data@.len()
        }),
    ensures
        ({
            let st = decode_storage(accounts[2].data@).unwrap();
            let user = accounts[0].key@;
            let prev = lookup(st.entries, user);
            let total = donation_total(st, user, lamports);
            let acts = spec_donation(accounts, lamports).unwrap().unwrap();
            &&& prev is Some ==> prev.unwrap() + lamports == total
            &&& prev is None ==> total == lamports
            &&& acts.len() == 2
            &&& acts[1] == ActionView::Transfer {
                from: 0,
                to: 1,
                lamports,
                accounts: seq![0usize, 1usize],
            }
            &&& acts[0] matches ActionView::WriteData { account, data } && account == 2
                && data == donation_write(accounts[2].data@, user, lamports)
                && decode_storage(data) == Ok::<StorageView, DecodeError>(
                donate_view(st, user, lamports),
            )
            &&& lookup(donate_view(st, user, lamports).entries, user) == Some(total)
            &&& as_map(donate_view(st, user, lamports).entries) == as_map(st.entries).insert(
                user,
                total,
            )
        }),
{
    let data = accounts[2].data@;
    let st = decode_storage(data).unwrap();
    let user = accounts[0].key@;
    lemma_donation_reads_back(data, user, lamports);
    let total = donation_total(st, user, lamports);
    lemma_lookup_insert_same(st.entries, user, total);
    lemma_as_map_insert(st.entries, user, total);
}

/// The written donation reads back as the storage after the donation, when it fits.
pub proof fn lemma_donation_reads_back(d: Seq<u8>, user: Seq<u8>, lamports: u64)
    requires
        decode_storage(d) is Ok,
        user.len() == 32,
        ({
            let st = decode_storage(d).unwrap();
            let n = st.entries.len() + (if lookup(st.entries, user) is Some {
                0int
            } else {
                1int
            });
            n <= u32::MAX && 36 + 40 * n <= d.len()
        }),
    ensures
        ({
            let st = decode_storage(d).unwrap();
            let nst = donate_view(st, user, lamports);
            &&& is_sorted(nst.entries)
            &&& keys_sized(nst.entries)
            &&& nst.donating_acc.len() == 32
            &&& encode_storage(nst).len() == 36 + 40 * nst.entries.len()
            &&& nst.entries.len() == st.entries.len() + (if lookup(st.entries, user) is Some {
                0int
            } else {
                1int
            })
            &&& decode_storage(donation_write(d, user, lamports)) == Ok::<StorageView, DecodeError>(
                nst,
            )
        }),
{
    let st = decode_storage(d).unwrap();
    let total = donation_total(st, user, lamports);
    lemma_decoded_wf(d);
    lemma_insert_len(st.entries, user, total);
    lemma_insert_sorted(st.entries, user, total);
    lemma_insert_sized(st.entries, user, total);
    let nst = donate_view(st, user, lamports);
    lemma_encode_layout(nst);
    lemma_write_then_read(d, nst);
}

/// Writing a longer encoding over a shorter one leaves what the longer one alone
/// would leave.
pub proof fn lemma_overwrite_longer(d: Seq<u8>, e1: Seq<u8>, e2: Seq<u8>)
    requires
        e1.len() <= e2.len(),
    ensures
        overwrite_prefix(overwrite_prefix(d, e1), e2) == overwrite_prefix(d, e2),
{
    assert(overwrite_prefix(overwrite_prefix(d, e1), e2) =~= overwrite_prefix(d, e2));
}

/// Two donations that both go through give the same storage data in either order,
/// when neither order overflows a total and the final ledger fits in the account;
/// two donations by one donor raise its total by both amounts.
pub proof fn lemma_donations_commute(d: Seq<u8>, u1: Seq<u8>, a: u64, u2: Seq<u8>, b: u64)
    requires
        decode_storage(d) is Ok,
        u1.len() == 32,
        u2.len() == 32,
        ({
            let st = decode_storage(d).unwrap();
            &&& donation_fits(st, u1, a)
            &&& donation_fits(donate_view(st, u1, a), u2, b)
            &&& donation_fits(st, u2, b)
            &&& donation_fits(donate_view(st, u2, b), u1, a)
            &&& donate_view(donate_view(st, u1, a), u2, b).entries.len() <= u32::MAX
            &&& 36 + 40 * donate_view(donate_view(st, u1, a), u2, b).entries.len() <= d.len()
        }),
    ensures
        decode_storage(donation_write(d, u1, a)) == Ok::<StorageView, DecodeError>(
            donate_view(decode_storage(d).unwrap(), u1, a),
        ),
        decode_storage(donation_write(d, u2, b)) == Ok::<StorageView, DecodeError>(
            donate_view(decode_storage(d).unwrap(), u2, b),
        ),
        donation_write(donation_write(d, u1, a), u2, b) == donation_write(
            donation_write(d, u2, b),
            u1,
            a,
        ),
        u1 == u2 ==> lookup(
            donate_view(donate_view(decode_storage(d).unwrap(), u1, a), u2, b).entries,
            u1,
        ) == Some(
            (if lookup(decode_storage(d).unwrap().entries, u1) is Some {
                lookup(decode_storage(d).unwrap().entries, u1).unwrap() + a + b
            } else {
                a + b
            }) as u64,
        ),
{
    let st = decode_storage(d).unwrap();
    lemma_decoded_wf(d);
    let s = st.entries;
    let t1 = donation_total(st, u1, a);
    let t2 = donation_total(st, u2, b);
    let v1 = donate_view(st, u1, a);
    let v2 = donate_view(st, u2, b);
    lemma_insert_sorted(s, u1, t1);
    lemma_insert_sized(s, u1, t1);
    lemma_insert_sorted(s, u2, t2);
    lemma_insert_sized(s, u2, t2);
    lemma_insert_len(s, u1, t1);
    lemma_insert_len(s, u2, t2);
    let t12 = donation_total(v1, u2, b);
    let t21 = donation_total(v2, u1, a);
    lemma_insert_len(v1.entries, u2, t12);
    lemma_insert_len(v2.entries, u1, t21);
    lemma_lookup_insert_same(s, u1, t1);
    lemma_lookup_insert_same(s, u2, t2);
    let v12 = donate_view(v1, u2, b);
    let v21 = donate_view(v2, u1, a);
    if u1 != u2 {
        lemma_lookup_insert_other(s, u1, t1, u2);
        lemma_lookup_insert_other(s, u2, t2, u1);
        lemma_insert_commute(s, u1, t1, u2, t2);
        assert(v12 == v21);
    } else {
        lemma_insert_overwrite(s, u1, t1, t12);
        lemma_insert_overwrite(s, u1, t2, t21);
        assert(v12 == v21);
        lemma_insert_sorted(v1.entries, u1, t12);
        lemma_lookup_insert_same(v1.entries, u1, t12);
    }
    // the intermediate ledgers are no longer than the final one, so they fit too
    lemma_donation_reads_back(d, u1, a);
    lemma_donation_reads_back(d, u2, b);
    let w1 = donation_write(d, u1, a);
    let w2 = donation_write(d, u2, b);
    lemma_overwrite_len(d, encode_storage(v1));
    lemma_overwrite_len(d, encode_storage(v2));
    lemma_donation_reads_back(w1, u2, b);
    lemma_donation_reads_back(w2, u1, a);
    lemma_overwrite_longer(d, encode_storage(v1), encode_storage(v12));
    lemma_overwrite_longer(d, encode_storage(v2), encode_storage(v21));
}

/// A donation succeeds only when the donor signed and the storage names the
/// receiving account as its donating account, or names none yet.
pub proof fn lemma_donation_requires_donating_account(accounts: Seq<AccountState>, lamports: u64)
    ensures
        spec_donation(accounts, lamports) matches Some(Ok(_)) ==> {
            &&& accounts[0].is_signer
            &&& decode_storage(accounts[2].data@) is Ok
            &&& ({
                let acc = decode_storage(accounts[2].data@).unwrap().donating_acc;
                acc == accounts[1].key@ || acc == zero_key()
            })
        },
{
}

/// A withdrawal succeeds only when the donating account recorded in the storage
/// signed it, and then only transfers: it writes nothing.
pub proof fn lemma_withdraw_only_by_donating_account(accounts: Seq<AccountState>, lamports: u64)
    ensures
        spec_withdraw(accounts, lamports) matches Some(Ok(acts)) ==> {
            &&& accounts[0].is_signer
            &&& decode_storage(accounts[2].data@) is Ok
            &&& decode_storage(accounts[2].data@).unwrap().donating_acc == accounts[0].key@
            &&& acts == seq![
                ActionView::Transfer {
                    from: 0,
                    to: 1,
                    lamports,
                    accounts: seq![0usize, 1usize, 3usize],
                },
            ]
        },
{
}

/// Against a storage that names `d` as its donating account, a signed withdrawal
/// at the storage address is refused with code 2 unless `d` signs it, and when
/// `d` signs it, it is exactly one transfer of the amount to account 1.
pub proof fn lemma_withdraw_by_recorded_account(accounts: Seq<AccountState>, lamports: u64)
    requires
        accounts.len() >= 4,
        accounts[0].is_signer,
        storage_address() is Some,
        accounts[2].key@ == storage_address().unwrap().0,
        decode_storage(accounts[2].data@) is Ok,
    ensures
        decode_storage(accounts[2].data@).unwrap().donating_acc != accounts[0].key@
            ==> spec_withdraw(accounts, lamports) == Some(
            Err::<Seq<ActionView>, ProgramError>(ProgramError::Custom(2)),
        ),
        decode_storage(accounts[2].data@).unwrap().donating_acc == accounts[0].key@
            ==> spec_withdraw(accounts, lamports) == Some(
            Ok::<Seq<ActionView>, ProgramError>(
                seq![
                    ActionView::Transfer {
                        from: 0,
                        to: 1,
                        lamports,
                        accounts: seq![0usize, 1usize, 3usize],
                    },
                ],
            ),
        ),
{
}

/// A successful initialisation ends by writing a storage that reads back as the
/// signer's, with an empty ledger; it first creates the storage account when
/// that has no data.
pub proof fn lemma_initialize_resets(accounts: Seq<AccountState>)
    ensures
        spec_initialize(accounts) matches Some(Ok(acts)) ==> {
            &&& accounts[0].is_signer
            &&& acts.len() == (if accounts[2].data@.len() == 0 {
                2int
            } else {
                1int
            })
            &&& acts.last() matches ActionView::WriteData { account, data } && account == 2
                && data.len() > 0 && decode_storage(data) == Ok::<StorageView, DecodeError>(
                StorageView { donating_acc: accounts[0].key@, entries: Seq::empty() },
            )
        },
{
    if spec_initialize(accounts) matches Some(Ok(acts)) {
        let created = accounts[2].data@.len() == 0;
        let data = if created {
            fresh_storage_data()
        } else {
            accounts[2].data@
        };
        let nst = StorageView { donating_acc: accounts[0].key@, entries: Seq::empty() };
        assert(keys_sized(nst.entries));
        assert(is_sorted(nst.entries));
        lemma_encode_layout(nst);
        lemma_write_then_read(data, nst);
        lemma_overwrite_len(data, encode_storage(nst));
    }
}

/// Writing leaves the account's length as it was.
pub proof fn lemma_overwrite_len(data: Seq<u8>, enc: Seq<u8>)
    ensures
        overwrite_prefix(data, enc).len() == data.len(),
{
}

/// Writing the same bytes a second time changes nothing.
pub proof fn lemma_overwrite_twice(data: Seq<u8>, enc: Seq<u8>)
    ensures
        overwrite_prefix(overwrite_prefix(data, enc), enc) == overwrite_prefix(data, enc),
{
    assert(overwrite_prefix(overwrite_prefix(data, enc), enc) =~= overwrite_prefix(data, enc));
}

/// Initialising again, with the same signer and storage account and the storage
/// data that the first initialisation wrote, creates nothing and writes the same
/// data again.
pub proof fn lemma_initialize_twice(accounts: Seq<AccountState>, again: Seq<AccountState>)
    requires
        spec_initialize(accounts) matches Some(Ok(_)),
        again.len() == accounts.len(),
        again[0].key == accounts[0].key,
        again[0].is_signer == accounts[0].is_signer,
        again[2].key == accounts[2].key,
        spec_initialize(accounts).unwrap().unwrap().last() matches ActionView::WriteData {
            data,
            ..
        } && again[2].data@ == data,
    ensures
        spec_initialize(again) == Some(
            Ok::<Seq<ActionView>, ProgramError>(
                seq![ActionView::WriteData { account: 2, data: again[2].data@ }],
            ),
        ),
{
    lemma_initialize_resets(accounts);
    let data = if accounts[2].data@.len() == 0 {
        fresh_storage_data()
    } else {
        accounts[2].data@
    };
    let nst = StorageView { donating_acc: accounts[0].key@, entries: Seq::empty() };
    lemma_overwrite_twice(data, encode_storage(nst));
}

/// A donation of any amount goes through whenever its checks pass: at least
/// three accounts, account 2 at the storage address, the donor (account 0)
/// signing, storage that reads, names the receiving account (account 1) or no
/// donating account yet, and a donor total that stays within `u64`. It then
/// writes the storage account, keeping its length, and transfers exactly the
/// amount from the donor to the receiving account. Where the new ledger fits in
/// the account, the written storage reads back with the same donating account,
/// the donor's total raised by the amount (from zero for a new donor), and every
/// other donor's total as it was.
pub proof fn lemma_donation_complete(accounts: Seq<AccountState>, lamports: u64)
    requires
        accounts.len() >= 3,
        storage_address() is Some,
        accounts[2].key@ == storage_address().unwrap().0,
        accounts[0].is_signer,
        decode_storage(accounts[2].data@) is Ok,
        decode_storage(accounts[2].data@).unwrap().donating_acc == accounts[1].key@
            || decode_storage(accounts[2].data@).unwrap().donating_acc == zero_key(),
        lookup(decode_storage(accounts[2].data@).unwrap().entries, accounts[0].key@) is Some
            ==> lookup(decode_storage(accounts[2].data@).unwrap().entries, accounts[0].key@).unwrap()
            + lamports <= u64::MAX,
    ensures
        (spec_process(accounts, seq![0u8] + u64_le_bytes(lamports)) matches Some(Ok(acts))
            && acts.len() == 2 && acts[1] == (ActionView::Transfer {
            from: 0,
            to: 1,
            lamports,
            accounts: seq![0usize, 1usize],
        }) && (acts[0] matches ActionView::WriteData { account, data } && account == 2
            && data.len() == accounts[2].data@.len())),
        ({
            let st = decode_storage(accounts[2].data@).unwrap();
            let user = accounts[0].key@;
            let prev = lookup(st.entries, user);
            let n = st.entries.len() + (if prev is Some {
                0int
            } else {
                1int
            });
            let before: int = if prev is Some {
                prev.unwrap() as int
            } else {
                0
            };
            n <= u32::MAX && 36 + 40 * n <= accounts[2].data@.len() ==> (spec_process(
                accounts,
                seq![0u8] + u64_le_bytes(lamports),
            ).unwrap().unwrap()[0] matches ActionView::WriteData { data, .. } && decode_storage(
                data,
            ) matches Ok(nst) && nst.donating_acc == st.donating_acc && lookup(nst.entries, user)
                == Some((before + lamports) as u64) && forall|k: Seq<u8>|
                k != user ==> lookup(nst.entries, k) == lookup(st.entries, k))
        }),
{
    lemma_instruction_roundtrip(DonationInstruction::Donate { lamports });
    let st = decode_storage(accounts[2].data@).unwrap();
    let user = accounts[0].key@;
    let total = donation_total(st, user, lamports);
    lemma_overwrite_len(accounts[2].data@, encode_storage(donate_view(st, user, lamports)));
    let prev = lookup(st.entries, user);
    let n = st.entries.len() + (if prev is Some {
        0int
    } else {
        1int
    });
    if n <= u32::MAX && 36 + 40 * n <= accounts[2].data@.len() {
        lemma_donation_records_total(accounts, lamports);
        assert forall|k: Seq<u8>| k != user implies lookup(
            donate_view(st, user, lamports).entries,
            k,
        ) == lookup(st.entries, k) by {
            lemma_lookup_insert_other(st.entries, user, total, k);
        }
    }
}

/// A withdrawal of any amount, signed by account 0 with account 2 at the storage
/// address and storage that reads, transfers exactly the amount from account 0 to
/// account 1 when account 0 is the donating account the storage names, and is
/// refused with code 2 otherwise.
pub proof fn lemma_withdraw_complete(accounts: Seq<AccountState>, lamports: u64)
    requires
        accounts.len() >= 4,
        accounts[0].is_signer,
        storage_address() is Some,
        accounts[2].key@ == storage_address().unwrap().0,
        decode_storage(accounts[2].data@) is Ok,
    ensures
        decode_storage(accounts[2].data@).unwrap().donating_acc == accounts[0].key@
            ==> spec_process(accounts, seq![1u8] + u64_le_bytes(lamports)) == Some(
            Ok::<Seq<ActionView>, ProgramError>(
                seq![
                    ActionView::Transfer {
                        from: 0,
                        to: 1,
                        lamports,
                        accounts: seq![0usize, 1usize, 3usize],
                    },
                ],
            ),
        ),
        decode_storage(accounts[2].data@).unwrap().donating_acc != accounts[0].key@
            ==> spec_process(accounts, seq![1u8] + u64_le_bytes(lamports)) == Some(
            Err::<Seq<ActionView>, ProgramError>(ProgramError::Custom(2)),
        ),
{
    lemma_instruction_roundtrip(DonationInstruction::Withdraw { lamports });
}

/// Initialisation goes through whenever its checks pass: at least five accounts,
/// account 2 at the storage address, the donating account (account 0) signing,
/// and storage data that is empty or reads, whatever donating account and ledger
/// it holds. Empty storage is first created with `Storage::LEN` bytes. The last
/// effect writes storage that reads back as the signer's with an empty ledger,
/// keeping the account's length; over existing data only the 36 header bytes
/// change.
pub proof fn lemma_initialize_complete(accounts: Seq<AccountState>)
    requires
        accounts.len() >= 5,
        storage_address() is Some,
        accounts[2].key@ == storage_address().unwrap().0,
        accounts[0].is_signer,
        accounts[2].data@.len() == 0 || decode_storage(accounts[2].data@) is Ok,
    ensures
        (spec_process(accounts, seq![2u8]) matches Some(Ok(acts)) && (acts.last() matches ActionView::WriteData {
            account,
            data,
        } && account == 2 && decode_storage(data) == Ok::<StorageView, DecodeError>(
            (StorageView { donating_acc: accounts[0].key@, entries: Seq::empty() }),
        ) && (accounts[2].data@.len() == 0 ==> acts.len() == 2 && data.len() == 436 && acts[0]
            == (ActionView::CreateAccount {
            payer: 0,
            new_account: 2,
            rent: 3,
            space: 436,
            owner: ID@,
            bump: storage_address().unwrap().1,
            accounts: seq![0usize, 2usize, 4usize],
        })) && (accounts[2].data@.len() > 0 ==> acts.len() == 1 && data.len()
            == accounts[2].data@.len() && data.subrange(36, data.len() as int)
            == accounts[2].data@.subrange(36, data.len() as int)))),
{
    lemma_instruction_roundtrip(DonationInstruction::Initialize);
    assert(seq![2u8] == encode_instruction(DonationInstruction::Initialize));
    let created = accounts[2].data@.len() == 0;
    let d = if created {
        fresh_storage_data()
    } else {
        accounts[2].data@
    };
    if created {
        let z = fresh_storage_data();
        assert(z.subrange(32, 36) =~= seq![0u8, 0u8, 0u8, 0u8]);
        assert((0u8 as u32) | (0u8 as u32) << 8 | (0u8 as u32) << 16 | (0u8 as u32) << 24 == 0u32)
            by (bit_vector);
        assert(decode_storage(z) is Ok);
    }
    lemma_initialize_resets(accounts);
    let nst = StorageView { donating_acc: accounts[0].key@, entries: Seq::empty() };
    assert(keys_sized(nst.entries));
    lemma_encode_layout(nst);
    lemma_overwrite_len(d, encode_storage(nst));
    let w = overwrite_prefix(d, encode_storage(nst));
    assert(w.subrange(36, w.len() as int) =~= d.subrange(36, w.len() as int));
}

/// The donation program.
pub struct Processor;

impl Processor {
    /// Processes an instruction: decodes it, checks the accounts and returns the
    /// effects to carry out, or the error the instruction ends with.
    pub fn process(_program_id: &Key, accounts: &[AccountState], instruction_data: &[u8]) -> (r:
        Result<Vec<Action>, ProgramError>)
        requires
            spec_process(accounts@, instruction_data@) is Some,
        ensures
            Some(outcome_view(r)) == spec_process(accounts@, instruction_data@),
    {
        match Self::run(accounts, instruction_data) {
            Some(r) => r,
            None => {
                proof {
                    assert(false);
                }
                Err(ProgramError::NotEnoughAccountKeys)
            },
        }
    }

    /// Processes an instruction as `process` does, or returns `None` where the
    /// program aborts instead (and `process` cannot be called).
    pub fn try_process(program_id: &Key, accounts: &[AccountState], instruction_data: &[u8]) -> (r:
        Option<Result<Vec<Action>, ProgramError>>)
        ensures
            checked_outcome_view(r) == spec_process(accounts@, instruction_data@),
    {
        match Self::run(accounts, instruction_data) {
            Some(_) => Some(Self::process(program_id, accounts, instruction_data)),
            None => None,
        }
    }

    fn run(accounts: &[AccountState], instruction_data: &[u8]) -> (r: Option<
        Result<Vec<Action>, ProgramError>,
    >)
        ensures
            checked_outcome_view(r) == spec_process(accounts@, instruction_data@),
    {
        match DonationInstruction::try_from_slice(instruction_data) {
            Err(e) => Some(Err(ProgramError::BorshIoError(e))),
            Ok(DonationInstruction::Donate { lamports }) => Self::process_donation(
                accounts,
                lamports,
            ),
            Ok(DonationInstruction::Withdraw { lamports }) => Self::process_withdraw(
                accounts,
                lamports,
            ),
            Ok(DonationInstruction::Initialize) => Self::initialize(accounts),
        }
    }

    fn process_donation(accounts: &[AccountState], lamports: u64) -> (r: Option<
        Result<Vec<Action>, ProgramError>,
    >)
        ensures
            checked_outcome_view(r) == spec_donation(accounts@, lamports),
    {
        if accounts.len() < 3 {
            return Some(Err(ProgramError::NotEnoughAccountKeys));
        }
        let user_info = &accounts[0];
        let donating_info = &accounts[1];
        let storage_info = &accounts[2];
        if try_find_program_address(STORAGE_SEED, &ID).is_none() {
            return None;
        }
        if !Storage::is_ok_storage_pubkey(&storage_info.key) {
            return Some(Err(ProgramError::from(DonateError::WrongStoragePDA)));
        }
        if !user_info.is_signer {
            return Some(Err(ProgramError::MissingRequiredSignature));
        }
        let mut storage = match Storage::try_from_slice_unchecked(storage_info.data.as_slice()) {
            Ok(s) => s,
            Err(e) => {
                return Some(Err(ProgramError::BorshIoError(e)));
            },
        };
        if !keys_equal(&storage.donating_acc, &donating_info.key) && !is_zero_key(
            &storage.donating_acc,
        ) {
            return Some(Err(ProgramError::from(DonateError::DonatingRequired)));
        }
        let total = match storage.map.get(&user_info.key) {
            Some(value) => {
                if value > u64::MAX - lamports {
                    return None;
                }
                lamports + value
            },
            None => lamports,
        };
        storage.map.insert(user_info.key, total);
        let data = storage.write_to(storage_info.data.as_slice());
        let r = vec![
            Action::WriteData { account: 2, data },
            Action::Transfer { from: 0, to: 1, lamports, accounts: vec![0, 1] },
        ];
        proof {
            let s = spec_donation(accounts@, lamports).unwrap().unwrap();
            assert(crate::account::actions_view(r@) =~= s);
        }
        Some(Ok(r))
    }

    fn process_withdraw(accounts: &[AccountState], lamports: u64) -> (r: Option<
        Result<Vec<Action>, ProgramError>,
    >)
        ensures
            checked_outcome_view(r) == spec_withdraw(accounts@, lamports),
    {
        if accounts.len() < 4 {
            return Some(Err(ProgramError::NotEnoughAccountKeys));
        }
        let donating_info = &accounts[0];
        let storage_info = &accounts[2];
        if !donating_info.is_signer {
            return Some(Err(ProgramError::MissingRequiredSignature));
        }
        if try_find_program_address(STORAGE_SEED, &ID).is_none() {
            return None;
        }
        if !Storage::is_ok_storage_pubkey(&storage_info.key) {
            return Some(Err(ProgramError::from(DonateError::WrongStoragePDA)));
        }
        let storage = match Storage::try_from_slice_unchecked(storage_info.data.as_slice()) {
            Ok(s) => s,
            Err(e) => {
                return Some(Err(ProgramError::BorshIoError(e)));
            },
        };
        if !keys_equal(&storage.donating_acc, &donating_info.key) {
            return Some(Err(ProgramError::from(DonateError::WrongDonatingAccount)));
        }
        let r = vec![Action::Transfer { from: 0, to: 1, lamports, accounts: vec![0, 1, 3] }];
        proof {
            let s = spec_withdraw(accounts@, lamports).unwrap().unwrap();
            assert(crate::account::actions_view(r@) =~= s);
        }
        Some(Ok(r))
    }

    fn initialize(accounts: &[AccountState]) -> (r: Option<Result<Vec<Action>, ProgramError>>)
        ensures
            checked_outcome_view(r) == spec_initialize(accounts@),
    {
        if accounts.len() < 5 {
            return Some(Err(ProgramError::NotEnoughAccountKeys));
        }
        let donating_info = &accounts[0];
        let storage_info = &accounts[2];
        if try_find_program_address(STORAGE_SEED, &ID).is_none() {
            return None;
        }
        let (_storage_pubkey, bump_seed) = Storage::get_storage_pubkey_with_bump();
        if !Storage::is_ok_storage_pubkey(&storage_info.key) {
            return Some(Err(ProgramError::from(DonateError::WrongStoragePDA)));
        }
        if !donating_info.is_signer {
            return Some(Err(ProgramError::MissingRequiredSignature));
        }
        let created = storage_info.data.len() == 0;
        let data: Vec<u8> = if created {
            let z: Vec<u8> = vec![0u8; Storage::LEN];
            assert(z@ =~= fresh_storage_data());
            z
        } else {
            storage_info.data.clone()
        };
        let mut storage = match Storage::try_from_slice_unchecked(data.as_slice()) {
            Ok(s) => s,
            Err(e) => {
                return Some(Err(ProgramError::BorshIoError(e)));
            },
        };
        storage.donating_acc = donating_info.key;
        storage.map = DonationMap::new();
        let written = storage.write_to(data.as_slice());
        let write = Action::WriteData { account: 2, data: written };
        let r = if created {
            vec![
                Action::CreateAccount {
                    payer: 0,
                    new_account: 2,
                    rent: 3,
                    space: Storage::LEN as u64,
                    owner: crate::pda::id(),
                    bump: bump_seed,
                    accounts: vec![0, 2, 4],
                },
                write,
            ]
        } else {
            vec![write]
        };
        proof {
            let s = spec_initialize(accounts@).unwrap().unwrap();
            assert(crate::account::actions_view(r@) =~= s);
        }
        Some(Ok(r))
    }
}

} // verus!
