use crate::error::ElectionError;
use crate::instruction::{parse_instruction, ElectionInstruction, InstructionModel};
use crate::state::{borsh_bytes, contains_key, decodes_to, texts, Election, ElectionModel};
use vstd::prelude::*;

verus! {

/// The record right after a CreateElection: the given name and candidates, a
/// zero counter per candidate, and no voters.
pub open spec fn created(name: Seq<char>, candidates: Seq<Seq<char>>) -> ElectionModel {
    ElectionModel {
        name,
        candidates,
        votes: Seq::new(candidates.len(), |i: int| 0u64),
        voters: Seq::empty(),
    }
}

/// The outcome of one instruction on a well-formed record: the new record, or
/// the error that leaves the record as it was.
pub open spec fn step(m: ElectionModel, i: InstructionModel) -> Result<ElectionModel, ElectionError> {
    match i {
        InstructionModel::CreateElection { name, candidates } => Ok(created(name, candidates)),
        InstructionModel::RegisterVoter { voter } => if m.voters.contains(voter) {
            Err(ElectionError::VoterAlreadyRegistered)
        } else {
            Ok(ElectionModel { voters: m.voters.push(voter), ..m })
        },
        InstructionModel::CastVote { voter, index } => if !m.voters.contains(voter) {
            Err(ElectionError::VoterNotRegistered)
        } else if index >= m.candidates.len() {
            Err(ElectionError::InvalidCandidateIndex)
        } else if m.votes[index as int] == u64::MAX {
            Err(ElectionError::TallyOverflow)
        } else {
            Ok(ElectionModel { votes: m.votes.update(index as int, (m.votes[index as int] + 1) as u64), ..m })
        },
    }
}

/// The buffer after `bytes` overwrote its front.
pub open spec fn overwritten(data: Seq<u8>, bytes: Seq<u8>) -> Seq<u8> {
    bytes + data.subrange(bytes.len() as int, data.len() as int)
}

/// Creating an election with `k` candidates gives `k` counters, all zero, and
/// no voters, whatever the record held before.
pub proof fn lemma_create_resets(m: ElectionModel, name: Seq<char>, candidates: Seq<Seq<char>>)
    ensures
        step(m, InstructionModel::CreateElection { name, candidates }) matches Ok(n) && {
            &&& n.name == name
            &&& n.candidates == candidates
            &&& n.votes.len() == candidates.len()
            &&& forall|i: int| 0 <= i < n.votes.len() ==> n.votes[i] == 0
            &&& n.voters.len() == 0
            &&& n.wf()
        },
{
}

/// Registering a voter a second time fails with `VoterAlreadyRegistered`.
pub proof fn lemma_register_twice(m: ElectionModel, voter: [u8; 32])
    requires
        step(m, InstructionModel::RegisterVoter { voter }) is Ok,
    ensures
        step(
            step(m, InstructionModel::RegisterVoter { voter })->Ok_0,
            InstructionModel::RegisterVoter { voter },
        ) == Err::<ElectionModel, ElectionError>(ElectionError::VoterAlreadyRegistered),
{
    let n = step(m, InstructionModel::RegisterVoter { voter })->Ok_0;
    assert(n.voters[n.voters.len() - 1] == voter);
}

/// A vote by a voter who is not registered fails with `VoterNotRegistered`,
/// whatever the candidate index.
pub proof fn lemma_unregistered_vote_fails(m: ElectionModel, voter: [u8; 32], index: u8)
    requires
        !m.voters.contains(voter),
    ensures
        step(m, InstructionModel::CastVote { voter, index })
            == Err::<ElectionModel, ElectionError>(ElectionError::VoterNotRegistered),
{
}

/// A vote by a registered voter for an index at or past the number of
/// candidates fails with `InvalidCandidateIndex`.
pub proof fn lemma_index_out_of_range_fails(m: ElectionModel, voter: [u8; 32], index: u8)
    requires
        m.voters.contains(voter),
        index >= m.candidates.len(),
    ensures
        step(m, InstructionModel::CastVote { voter, index })
            == Err::<ElectionModel, ElectionError>(ElectionError::InvalidCandidateIndex),
{
}

/// The record after one instruction: the new record when it succeeds, the
/// same record when it fails.
pub open spec fn after(m: ElectionModel, i: InstructionModel) -> ElectionModel {
    match step(m, i) {
        Ok(n) => n,
        Err(_) => m,
    }
}

/// The record after a sequence of instructions, applied in order, each
/// failure leaving the record as it was.
pub open spec fn run(m: ElectionModel, ops: Seq<InstructionModel>) -> ElectionModel
    decreases ops.len(),
{
    if ops.len() == 0 {
        m
    } else {
        run(after(m, ops[0]), ops.drop_first())
    }
}

/// How many instructions of the sequence are votes for candidate `i` that
/// succeed when applied in order.
pub open spec fn votes_cast_for(m: ElectionModel, ops: Seq<InstructionModel>, i: int) -> nat
    decreases ops.len(),
{
    if ops.len() == 0 {
        0
    } else {
        let counted: nat = if ops[0] matches InstructionModel::CastVote { index, .. } && index as int == i
            && step(m, ops[0]) is Ok {
            1
        } else {
            0
        };
        counted + votes_cast_for(after(m, ops[0]), ops.drop_first(), i)
    }
}

/// Over any sequence of registrations and votes, successful or not, each
/// counter grows by exactly the number of successful votes for its candidate,
/// and the candidates stay as they were.
pub proof fn lemma_votes_counted(m: ElectionModel, ops: Seq<InstructionModel>)
    requires
        m.wf(),
        forall|j: int| 0 <= j < ops.len() ==> !(#[trigger] ops[j] is CreateElection),
    ensures
        run(m, ops).wf(),
        run(m, ops).name == m.name,
        run(m, ops).candidates == m.candidates,
        forall|i: int| 0 <= i < m.votes.len() ==> #[trigger] run(m, ops).votes[i] == m.votes[i] + votes_cast_for(m, ops, i),
    decreases ops.len(),
{
    if ops.len() > 0 {
        let n = after(m, ops[0]);
        if step(m, ops[0]) is Ok {
            lemma_step_keeps_wf(m, ops[0]);
        }
        assert(!(ops[0] is CreateElection));
        let tail = ops.drop_first();
        assert forall|j: int| 0 <= j < tail.len() implies !(#[trigger] tail[j] is CreateElection) by {
            assert(tail[j] == ops[j + 1]);
        }
        lemma_votes_counted(n, tail);
    }
}

/// Counted from a freshly created election, each counter equals the number of
/// successful votes for its candidate, whatever registrations and failed
/// calls come in between.
pub proof fn lemma_votes_from_creation(name: Seq<char>, candidates: Seq<Seq<char>>, ops: Seq<InstructionModel>)
    requires
        forall|j: int| 0 <= j < ops.len() ==> !(#[trigger] ops[j] is CreateElection),
    ensures
        run(created(name, candidates), ops).votes.len() == candidates.len(),
        forall|i: int| 0 <= i < candidates.len() ==> #[trigger] run(created(name, candidates), ops).votes[i]
            == votes_cast_for(created(name, candidates), ops, i),
{
    assert(created(name, candidates).voters =~= Seq::<[u8; 32]>::empty());
    lemma_votes_counted(created(name, candidates), ops);
}

/// Every instruction that succeeds on a well-formed record leaves it well
/// formed.
pub proof fn lemma_step_keeps_wf(m: ElectionModel, i: InstructionModel)
    requires
        m.wf(),
        step(m, i) is Ok,
    ensures
        step(m, i)->Ok_0.wf(),
{
    match i {
        InstructionModel::CreateElection { name, candidates } => {
            assert(step(m, i)->Ok_0.voters =~= Seq::<[u8; 32]>::empty());
        },
        _ => {},
    }
}

/// Applies decoded instructions to election records kept in byte buffers.
pub struct Processor;

impl Processor {
    /// Starts the election anew: sets name and candidates, zeroes every
    /// counter and clears the voters, whatever the record held before.
    pub fn create_election(election: &mut Election, name: String, candidates: Vec<String>)
        ensures
            final(election)@ == created(name@, texts(candidates@)),
    {
        let n = candidates.len();
        let mut votes: Vec<u64> = Vec::new();
        let mut i: usize = 0;
        while i < n
            invariant
                0 <= i <= n,
                votes@ == Seq::new(i as nat, |j: int| 0u64),
            decreases n - i,
        {
            votes.push(0);
            i = i + 1;
            assert(votes@ =~= Seq::new(i as nat, |j: int| 0u64));
        }
        election.name = name;
        election.candidates = candidates;
        election.votes = votes;
        election.voters = Vec::new();
        assert(final(election)@.votes =~= created(name@, texts(candidates@)).votes);
        assert(final(election)@.voters =~= Seq::<[u8; 32]>::empty());
    }

    /// Adds a voter, unless the voter is already registered.
    pub fn register_voter(election: &mut Election, voter_pubkey: [u8; 32]) -> (r: Result<(), ElectionError>)
        ensures
            match step(old(election)@, InstructionModel::RegisterVoter { voter: voter_pubkey }) {
                Ok(m) => r is Ok && final(election)@ == m,
                Err(e) => r == Err::<(), ElectionError>(e) && *final(election) == *old(election),
            },
    {
        if contains_key(&election.voters, &voter_pubkey) {
            return Err(ElectionError::VoterAlreadyRegistered);
        }
        election.voters.push(voter_pubkey);
        Ok(())
    }

    /// Counts one vote for a candidate, cast by a registered voter.
    pub fn cast_vote(election: &mut Election, voter_pubkey: [u8; 32], candidate_index: u8) -> (r: Result<(), ElectionError>)
        requires
            old(election)@.wf(),
        ensures
            match step(old(election)@, InstructionModel::CastVote { voter: voter_pubkey, index: candidate_index }) {
                Ok(m) => r is Ok && final(election)@ == m,
                Err(e) => r == Err::<(), ElectionError>(e) && *final(election) == *old(election),
            },
    {
        if !contains_key(&election.voters, &voter_pubkey) {
            return Err(ElectionError::VoterNotRegistered);
        }
        let index = candidate_index as usize;
        if index >= election.candidates.len() {
            return Err(ElectionError::InvalidCandidateIndex);
        }
        let count = election.votes[index];
        if count == u64::MAX {
            return Err(ElectionError::TallyOverflow);
        }
        election.votes.set(index, count + 1);
        Ok(())
    }

    /// Applies one decoded instruction to a well-formed record. On an error
    /// the record is left as it was; on success it stays well formed.
    pub fn apply(election: &mut Election, instruction: ElectionInstruction) -> (r: Result<(), ElectionError>)
        requires
            old(election)@.wf(),
        ensures
            match step(old(election)@, instruction@) {
                Ok(m) => r is Ok && final(election)@ == m,
                Err(e) => r == Err::<(), ElectionError>(e) && *final(election) == *old(election),
            },
            final(election)@.wf(),
    {
        match instruction {
            ElectionInstruction::CreateElection { name, candidates } => {
                Self::create_election(election, name, candidates);
                assert(final(election)@.voters =~= Seq::<[u8; 32]>::empty());
                Ok(())
            },
            ElectionInstruction::RegisterVoter { voter_pubkey } => {
                Self::register_voter(election, voter_pubkey)
            },
            ElectionInstruction::CastVote { voter_pubkey, candidate_index } => {
                Self::cast_vote(election, voter_pubkey, candidate_index)
            },
        }
    }

    /// Writes `bytes` over the front of `data` when they fit, and fails with
    /// `CapacityExceeded`, touching nothing, when they do not.
    pub fn store(data: &mut Vec<u8>, bytes: &Vec<u8>) -> (r: Result<(), ElectionError>)
        ensures
            bytes@.len() <= old(data)@.len() ==> r is Ok && final(data)@ == overwritten(old(data)@, bytes@),
            bytes@.len() > old(data)@.len() ==> r == Err::<(), ElectionError>(ElectionError::CapacityExceeded)
                && final(data)@ == old(data)@,
    {
        if bytes.len() > data.len() {
            return Err(ElectionError::CapacityExceeded);
        }
        let mut i: usize = 0;
        while i < bytes.len()
            invariant
                0 <= i <= bytes@.len() <= data@.len(),
                data@.len() == old(data)@.len(),
                forall|j: int| 0 <= j < i ==> data@[j] == bytes@[j],
                forall|j: int| i <= j < data@.len() ==> data@[j] == old(data)@[j],
            decreases bytes.len() - i,
        {
            data.set(i, bytes[i]);
            i = i + 1;
        }
        assert(data@ =~= overwritten(old(data)@, bytes@));
        Ok(())
    }

    /// Decodes an instruction, reads the record from the front of `data`,
    /// applies the instruction and writes the new record's bytes over the
    /// front of `data`. The buffer keeps its length, and on any error it is
    /// left as it was.
    pub fn process(data: &mut Vec<u8>, instruction_data: &[u8]) -> (r: Result<(), ElectionError>)
        ensures
            final(data)@.len() == old(data)@.len(),
            r is Err ==> final(data)@ == old(data)@,
            parse_instruction(instruction_data@) is None ==> r == Err::<(), ElectionError>(
                ElectionError::InvalidInstructionData,
            ),
            parse_instruction(instruction_data@) is Some && (forall|m: ElectionModel| !decodes_to(old(data)@, m))
                ==> r == Err::<(), ElectionError>(ElectionError::MalformedRecord),
            forall|m: ElectionModel| #[trigger] decodes_to(old(data)@, m) ==> match parse_instruction(instruction_data@) {
                None => true,
                Some(i) => if !m.wf() {
                    r == Err::<(), ElectionError>(ElectionError::MalformedRecord)
                } else {
                    match step(m, i) {
                        Err(e) => r == Err::<(), ElectionError>(e),
                        Ok(next) => match borsh_bytes(next) {
                            Some(b) => if b.len() <= old(data)@.len() {
                                r is Ok && final(data)@ == overwritten(old(data)@, b)
                            } else {
                                r == Err::<(), ElectionError>(ElectionError::CapacityExceeded)
                            },
                            None => r == Err::<(), ElectionError>(ElectionError::CapacityExceeded),
                        },
                    }
                },
            },
    {
        let instruction = match ElectionInstruction::unpack(instruction_data) {
            Ok(i) => i,
            Err(e) => return Err(e),
        };
        let mut election = match Election::unpack(data.as_slice()) {
            Ok(e) => e,
            Err(e) => return Err(e),
        };
        match Self::apply(&mut election, instruction) {
            Ok(()) => {},
            Err(e) => return Err(e),
        }
        let bytes = match election.pack() {
            Some(b) => b,
            None => return Err(ElectionError::CapacityExceeded),
        };
        Self::store(data, &bytes)
    }
}

} // verus!
