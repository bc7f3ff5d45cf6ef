use flash_lending::processor::{
    decode_instruction, finish_transfer, process_instruction, resolve_accounts, unpack_amount,
    ProcessError, RepaymentInstruction,
};
use solana_program::instruction::AccountMeta;
use solana_program::program_error::ProgramError;
use solana_program::pubkey::Pubkey;

fn four_accounts() -> Vec<Pubkey> {
    vec![
        Pubkey::new_unique(),
        Pubkey::new_unique(),
        spl_token::id(),
        Pubkey::new_unique(),
    ]
}

#[test]
fn repays_one_hundred_units() {
    let accounts = four_accounts();
    let ix = process_instruction(&accounts, &[0, 100, 0, 0, 0, 0, 0, 0, 0]).unwrap();
    assert_eq!(ix.program_id, spl_token::id());
    assert_eq!(
        ix.accounts,
        vec![
            AccountMeta::new(accounts[1], false),
            AccountMeta::new(accounts[0], false),
            AccountMeta::new_readonly(accounts[3], true),
        ]
    );
    assert_eq!(ix.data, vec![3, 100, 0, 0, 0, 0, 0, 0, 0]);
}

#[test]
fn extra_accounts_and_bytes_are_ignored() {
    let mut accounts = four_accounts();
    accounts.push(Pubkey::new_unique());
    let ix = process_instruction(&accounts, &[0, 1, 2, 3, 4, 5, 6, 7, 8, 9, 9]).unwrap();
    assert_eq!(ix.data, vec![3, 1, 2, 3, 4, 5, 6, 7, 8]);
    assert_eq!(ix.accounts.len(), 3);
}

#[test]
fn empty_instruction_is_malformed() {
    assert_eq!(
        process_instruction(&four_accounts(), &[]),
        Err(ProcessError::MalformedInstruction)
    );
}

#[test]
fn other_tag_is_unsupported() {
    assert_eq!(
        process_instruction(&four_accounts(), &[1, 0, 0, 0, 0, 0, 0, 0, 0]),
        Err(ProcessError::UnsupportedInstruction)
    );
}

#[test]
fn short_amount_is_malformed() {
    assert_eq!(
        process_instruction(&four_accounts(), &[0, 100, 0, 0, 0, 0, 0, 0]),
        Err(ProcessError::MalformedInstruction)
    );
    assert_eq!(
        process_instruction(&four_accounts(), &[0]),
        Err(ProcessError::MalformedInstruction)
    );
}

#[test]
fn missing_account_comes_before_decoding() {
    let accounts = four_accounts();
    for n in 0..4 {
        assert_eq!(
            process_instruction(&accounts[..n], &[]),
            Err(ProcessError::MissingAccount)
        );
        assert_eq!(
            process_instruction(&accounts[..n], &[7]),
            Err(ProcessError::MissingAccount)
        );
    }
}

#[test]
fn wrong_token_program_is_an_invocation_failure() {
    let mut accounts = four_accounts();
    accounts[2] = Pubkey::new_unique();
    assert_eq!(
        process_instruction(&accounts, &[0, 100, 0, 0, 0, 0, 0, 0, 0]),
        Err(ProcessError::ExternalInvocationFailure(ProgramError::IncorrectProgramId))
    );
}

#[test]
fn finish_transfer_keeps_the_error() {
    assert_eq!(
        finish_transfer(Err(ProgramError::InsufficientFunds)),
        Err(ProcessError::ExternalInvocationFailure(ProgramError::InsufficientFunds))
    );
}

#[test]
fn unpack_amount_is_little_endian() {
    assert_eq!(unpack_amount(&[1, 2, 3, 4, 5, 6, 7, 8]), Ok(0x0807060504030201));
    assert_eq!(unpack_amount(&[255; 9]), Ok(u64::MAX));
    assert_eq!(unpack_amount(&[1, 2, 3]), Err(ProcessError::MalformedInstruction));
}

#[test]
fn decode_reads_tag_then_amount() {
    assert_eq!(
        decode_instruction(&[0, 0, 1, 0, 0, 0, 0, 0, 0]),
        Ok(RepaymentInstruction { tag: 0, amount: 256 })
    );
    assert_eq!(decode_instruction(&[2]), Err(ProcessError::UnsupportedInstruction));
}

#[test]
fn resolve_takes_positions_in_order() {
    let accounts = four_accounts();
    let set = resolve_accounts(&accounts).unwrap();
    assert_eq!(set.destination, accounts[0]);
    assert_eq!(set.source, accounts[1]);
    assert_eq!(set.token_program, accounts[2]);
    assert_eq!(set.transfer_authority, accounts[3]);
    assert_eq!(resolve_accounts(&accounts[..3]), Err(ProcessError::MissingAccount));
}
