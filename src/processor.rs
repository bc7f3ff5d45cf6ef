//! The flash-loan repayment processor: it resolves four accounts, decodes
//! one instruction and builds the single token transfer that repays the loan.

use vstd::prelude::*;
use vstd::slice::slice_subrange;

use solana_program::instruction::Instruction;
use solana_program::program_error::ProgramError;
use solana_program::pubkey::Pubkey;

use crate::token::{is_token_program_id, is_token_transfer, le_value, token_transfer};

verus! {

/// Why a repayment could not be built.
#[derive(Debug, PartialEq, Eq)]
pub enum ProcessError {
    /// The instruction is empty or too short for its amount.
    MalformedInstruction,
    /// The instruction's tag is not the repayment tag.
    UnsupportedInstruction,
    /// Fewer than four accounts were supplied.
    MissingAccount,
    /// The token program's instruction builder failed; its error is kept.
    ExternalInvocationFailure(ProgramError),
}

/// Tag of the only instruction that this processor handles.
pub const REPAY_TAG: u8 = 0;

/// A decoded repayment instruction.
#[derive(Clone, Copy, Debug, PartialEq, Eq, Structural)]
pub struct RepaymentInstruction {
    pub tag: u8,
    pub amount: u64,
}

/// The four accounts of a repayment, by their positions in the supplied list.
#[derive(Clone, Copy, Debug, PartialEq, Eq)]
pub struct AccountSet {
    pub destination: Pubkey,
    pub source: Pubkey,
    pub token_program: Pubkey,
    pub transfer_authority: Pubkey,
}

/// The amount that the first eight bytes of `s` encode.
pub open spec fn amount_of(s: Seq<u8>) -> int {
    le_value(s.subrange(0, 8))
}

/// Reads the first eight bytes of `input` as a little-endian amount.
pub fn unpack_amount(input: &[u8]) -> (r: Result<u64, ProcessError>)
    ensures
        r is Ok <==> input@.len() >= 8,
        r is Ok ==> r->Ok_0 == amount_of(input@),
        r is Err ==> r->Err_0 == ProcessError::MalformedInstruction,
{
    if input.len() < 8 {
        return Err(ProcessError::MalformedInstruction);
    }
    let mut v: u64 = input[7] as u64;
    v = input[6] as u64 + 256 * v;
    v = input[5] as u64 + 256 * v;
    v = input[4] as u64 + 256 * v;
    v = input[3] as u64 + 256 * v;
    v = input[2] as u64 + 256 * v;
    v = input[1] as u64 + 256 * v;
    v = input[0] as u64 + 256 * v;
    proof {
        let s = input@.subrange(0, 8);
        reveal_with_fuel(le_value, 9);
        assert(s.drop_first() =~= input@.subrange(1, 8));
        assert(s.drop_first().drop_first() =~= input@.subrange(2, 8));
        assert(s.drop_first().drop_first().drop_first() =~= input@.subrange(3, 8));
        assert(input@.subrange(3, 8).drop_first() =~= input@.subrange(4, 8));
        assert(input@.subrange(4, 8).drop_first() =~= input@.subrange(5, 8));
        assert(input@.subrange(5, 8).drop_first() =~= input@.subrange(6, 8));
        assert(input@.subrange(6, 8).drop_first() =~= input@.subrange(7, 8));
        assert(input@.subrange(7, 8).drop_first() =~= Seq::<u8>::empty());
    }
    Ok(v)
}

/// Takes the four accounts of a repayment from the front of `accounts`, in
/// the order destination, source, token program, transfer authority; the
/// accounts after them are ignored.
pub fn resolve_accounts(accounts: &[Pubkey]) -> (r: Result<AccountSet, ProcessError>)
    ensures
        r is Ok <==> accounts@.len() >= 4,
        r is Ok ==> r->Ok_0 == (AccountSet {
            destination: accounts@[0],
            source: accounts@[1],
            token_program: accounts@[2],
            transfer_authority: accounts@[3],
        }),
        r is Err ==> r->Err_0 == ProcessError::MissingAccount,
{
    if accounts.len() < 4 {
        return Err(ProcessError::MissingAccount);
    }
    Ok(AccountSet {
        destination: accounts[0],
        source: accounts[1],
        token_program: accounts[2],
        transfer_authority: accounts[3],
    })
}

/// The error that decoding `input` gives, if any.
pub open spec fn decode_failure(input: Seq<u8>) -> Option<ProcessError> {
    if input.len() == 0 {
        Some(ProcessError::MalformedInstruction)
    } else if input[0] != REPAY_TAG {
        Some(ProcessError::UnsupportedInstruction)
    } else if input.len() < 9 {
        Some(ProcessError::MalformedInstruction)
    } else {
        None
    }
}

/// Decodes a repayment instruction: a zero tag byte, then the amount in
/// eight little-endian bytes; bytes after those are ignored.
pub fn decode_instruction(input: &[u8]) -> (r: Result<RepaymentInstruction, ProcessError>)
    ensures
        r is Ok <==> decode_failure(input@) is None,
        r is Ok ==> r->Ok_0 == (RepaymentInstruction {
            tag: REPAY_TAG,
            amount: amount_of(input@.drop_first()) as u64,
        }),
        r is Err ==> decode_failure(input@) == Some(r->Err_0),
{
    if input.len() == 0 {
        return Err(ProcessError::MalformedInstruction);
    }
    let tag = input[0];
    if tag != REPAY_TAG {
        return Err(ProcessError::UnsupportedInstruction);
    }
    let rest = slice_subrange(input, 1, input.len());
    assert(rest@ =~= input@.drop_first());
    let amount = unpack_amount(rest)?;
    Ok(RepaymentInstruction { tag, amount })
}

/// Turns what the token program's builder returned into the processor's
/// result: the instruction itself, or its error kept as
/// `ExternalInvocationFailure`.
pub fn finish_transfer(built: Result<Instruction, ProgramError>) -> (r: Result<
    Instruction,
    ProcessError,
>)
    ensures
        built is Ok ==> r == Ok::<Instruction, ProcessError>(built->Ok_0),
        built is Err ==> r == Err::<Instruction, ProcessError>(
            ProcessError::ExternalInvocationFailure(built->Err_0),
        ),
{
    match built {
        Ok(ix) => Ok(ix),
        Err(e) => Err(ProcessError::ExternalInvocationFailure(e)),
    }
}

/// Processes one repayment: resolves the four accounts, decodes `input`, and
/// returns the single token transfer that moves the amount from the source
/// account to the destination account, signed by the transfer authority.
/// The accounts are checked before any byte of `input` is read. On good
/// input it succeeds exactly when the third account is the token program.
pub fn process_instruction(accounts: &[Pubkey], input: &[u8]) -> (r: Result<
    Instruction,
    ProcessError,
>)
    ensures
        accounts@.len() < 4 ==> r == Err::<Instruction, ProcessError>(
            ProcessError::MissingAccount,
        ),
        accounts@.len() >= 4 && decode_failure(input@) is Some ==> r == Err::<
            Instruction,
            ProcessError,
        >(decode_failure(input@)->Some_0),
        accounts@.len() >= 4 && decode_failure(input@) is None ==> (r is Ok
            <==> is_token_program_id(accounts@[2])),
        accounts@.len() >= 4 && decode_failure(input@) is None && r is Ok ==> is_token_transfer(
            r->Ok_0,
            accounts@[2],
            accounts@[1],
            accounts@[0],
            accounts@[3],
            amount_of(input@.drop_first()) as u64,
        ),
        accounts@.len() >= 4 && decode_failure(input@) is None && r is Err ==> r->Err_0
            == ProcessError::ExternalInvocationFailure(ProgramError::IncorrectProgramId),
{
    let keys = resolve_accounts(accounts)?;
    let instruction = decode_instruction(input)?;
    let built = token_transfer(
        &keys.token_program,
        &keys.source,
        &keys.destination,
        &keys.transfer_authority,
        instruction.amount,
    );
    finish_transfer(built)
}

} // verus!
