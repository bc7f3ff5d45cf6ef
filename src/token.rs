//! The outside types of the host runtime and the token program's transfer
//! instruction builder.

use vstd::prelude::*;

use solana_program::instruction::{AccountMeta, Instruction};
use solana_program::program_error::ProgramError;
use solana_program::pubkey::Pubkey;

verus! {

/// An account address; opaque here, compared only as a whole.
#[verifier::external_type_specification]
#[verifier::external_body]
pub struct ExPubkey(Pubkey);

/// One account that an instruction names, with its access flags.
#[verifier::external_type_specification]
pub struct ExAccountMeta(AccountMeta);

/// An instruction for another program: its id, its accounts and its data.
#[verifier::external_type_specification]
pub struct ExInstruction(Instruction);

/// The host runtime's error kinds.
#[verifier::external_type_specification]
pub struct ExProgramError(ProgramError);

/// Whether `p` is the token program's fixed id.
pub uninterp spec fn is_token_program_id(p: Pubkey) -> bool;

/// Tag of the token program's `Transfer` instruction.
pub const TOKEN_TRANSFER_TAG: u8 = 3;

/// The unsigned integer that the bytes of `s` encode, least significant first.
pub open spec fn le_value(s: Seq<u8>) -> int
    decreases s.len(),
{
    if s.len() == 0 {
        0
    } else {
        s[0] + 256 * le_value(s.drop_first())
    }
}

/// `ix` is the token program's instruction that moves `amount` units from
/// `source` to `destination`, signed by `authority` alone, for the program
/// at `token_program`.
pub open spec fn is_token_transfer(
    ix: Instruction,
    token_program: Pubkey,
    source: Pubkey,
    destination: Pubkey,
    authority: Pubkey,
    amount: u64,
) -> bool {
    &&& ix.program_id == token_program
    &&& ix.accounts@ == seq![
        AccountMeta { pubkey: source, is_signer: false, is_writable: true },
        AccountMeta { pubkey: destination, is_signer: false, is_writable: true },
        AccountMeta { pubkey: authority, is_signer: true, is_writable: false },
    ]
    &&& ix.data@.len() == 9
    &&& ix.data@[0] == TOKEN_TRANSFER_TAG
    &&& le_value(ix.data@.drop_first()) == amount
}

/// Relies on spl_token::instruction::transfer: with no multisignature signers
/// it builds the `Transfer` instruction (tag 3, then the amount in 8
/// little-endian bytes; source and destination writable, authority a
/// read-only signer), and its only failure is `IncorrectProgramId`, when
/// `token_program` is not the token program's fixed id (`check_program_account`).
#[verifier::external_body]
pub(crate) fn token_transfer(
    token_program: &Pubkey,
    source: &Pubkey,
    destination: &Pubkey,
    authority: &Pubkey,
    amount: u64,
) -> (r: Result<Instruction, ProgramError>)
    ensures
        r is Ok <==> is_token_program_id(*token_program),
        r is Ok ==> is_token_transfer(
            r->Ok_0,
            *token_program,
            *source,
            *destination,
            *authority,
            amount,
        ),
        r is Err ==> r->Err_0 == ProgramError::IncorrectProgramId,
{
    spl_token::instruction::transfer(token_program, source, destination, authority, &[], amount)
}

} // verus!
