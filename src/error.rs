use vstd::prelude::*;

verus! {

/// Every way an instruction can fail. Each condition has its own numeric code.
#[derive(Debug, Clone, Copy, PartialEq, Eq, Structural)]
pub enum ElectionError {
    InvalidInstruction,
    VoterAlreadyRegistered,
    VoterNotRegistered,
    InvalidCandidateIndex,
    /// The instruction bytes do not follow the wire format.
    InvalidInstructionData,
    /// The stored record bytes do not hold a well-formed record.
    MalformedRecord,
    /// The updated record does not fit the buffer that holds it.
    CapacityExceeded,
    /// A vote counter is already at its largest value.
    TallyOverflow,
}

/// The numeric code reported for each error.
pub open spec fn error_code(e: ElectionError) -> u32 {
    match e {
        ElectionError::InvalidInstruction => 0,
        ElectionError::VoterAlreadyRegistered => 1,
        ElectionError::VoterNotRegistered => 2,
        ElectionError::InvalidCandidateIndex => 3,
        ElectionError::InvalidInstructionData => 4,
        ElectionError::MalformedRecord => 5,
        ElectionError::CapacityExceeded => 6,
        ElectionError::TallyOverflow => 7,
    }
}

impl ElectionError {
    /// The code of this error; distinct errors have distinct codes.
    pub fn code(&self) -> (r: u32)
        ensures
            r == error_code(*self),
    {
        match self {
            ElectionError::InvalidInstruction => 0,
            ElectionError::VoterAlreadyRegistered => 1,
            ElectionError::VoterNotRegistered => 2,
            ElectionError::InvalidCandidateIndex => 3,
            ElectionError::InvalidInstructionData => 4,
            ElectionError::MalformedRecord => 5,
            ElectionError::CapacityExceeded => 6,
            ElectionError::TallyOverflow => 7,
        }
    }
}

/// Distinct errors are reported under distinct codes.
pub proof fn lemma_error_codes_distinct(a: ElectionError, b: ElectionError)
    ensures
        error_code(a) == error_code(b) ==> a == b,
{
}

} // verus!
