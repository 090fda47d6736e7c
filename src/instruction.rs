use crate::error::ElectionError;
use crate::state::{texts, KEY_LEN};
use vstd::prelude::*;
use vstd::slice::slice_subrange;

verus! {

/// One decoded request against an election record.
#[derive(Debug, Clone, PartialEq, Eq)]
pub enum ElectionInstruction {
    CreateElection { name: String, candidates: Vec<String> },
    RegisterVoter { voter_pubkey: [u8; 32] },
    CastVote { voter_pubkey: [u8; 32], candidate_index: u8 },
}

/// A decoded request as values.
pub enum InstructionModel {
    CreateElection { name: Seq<char>, candidates: Seq<Seq<char>> },
    RegisterVoter { voter: [u8; 32] },
    CastVote { voter: [u8; 32], index: u8 },
}

impl View for ElectionInstruction {
    type V = InstructionModel;

    open spec fn view(&self) -> InstructionModel {
        match self {
            ElectionInstruction::CreateElection { name, candidates } => InstructionModel::CreateElection {
                name: name@,
                candidates: texts(candidates@),
            },
            ElectionInstruction::RegisterVoter { voter_pubkey } => InstructionModel::RegisterVoter {
                voter: *voter_pubkey,
            },
            ElectionInstruction::CastVote { voter_pubkey, candidate_index } => InstructionModel::CastVote {
                voter: *voter_pubkey,
                index: *candidate_index,
            },
        }
    }
}

/// Payload of a voter registration.
#[derive(Debug, Clone, Copy, PartialEq, Eq)]
pub struct RegisterVoter {
    pub voter_pubkey: [u8; 32],
}

/// Payload of a vote.
#[derive(Debug, Clone, Copy, PartialEq, Eq)]
pub struct CastVote {
    pub voter_pubkey: [u8; 32],
    pub candidate_index: u8,
}

/// The text that `b` encodes as UTF-8, if it is valid UTF-8.
pub uninterp spec fn utf8_text(b: Seq<u8>) -> Option<Seq<char>>;

/// Relies on `String::from_utf8`: the text of the bytes, or a failure when
/// they are not valid UTF-8. No bytes are the empty text.
#[verifier::external_body]
fn text_of(b: &[u8]) -> (r: Option<String>)
    ensures
        r is Some <==> utf8_text(b@) is Some,
        r matches Some(s) ==> utf8_text(b@) == Some(s@),
        b@.len() == 0 ==> r is Some && r->Some_0@.len() == 0,
{
    String::from_utf8(b.to_vec()).ok()
}

/// The key whose bytes are `s`.
pub open spec fn key_of(s: Seq<u8>) -> [u8; 32] {
    choose|k: [u8; 32]| k@ == s
}

/// Reads `count` labels from `b` starting at `off`, each one a length byte
/// followed by that many bytes of text. Gives the labels and the offset after
/// the last one.
pub open spec fn parse_labels(b: Seq<u8>, off: int, count: nat) -> Option<(Seq<Seq<char>>, int)>
    decreases count,
{
    if count == 0 {
        Some((Seq::empty(), off))
    } else if off < 0 || off >= b.len() {
        None
    } else {
        let end = off + 1 + b[off] as int;
        if end > b.len() {
            None
        } else {
            match utf8_text(b.subrange(off + 1, end)) {
                None => None,
                Some(s) => match parse_labels(b, end, (count - 1) as nat) {
                    None => None,
                    Some((tail, e)) => Some((seq![s] + tail, e)),
                },
            }
        }
    }
}

/// The payload of a CreateElection: a length-prefixed name, a count byte, and
/// that many length-prefixed candidate labels. Bytes after the last label are
/// ignored.
pub open spec fn parse_create(rest: Seq<u8>) -> Option<InstructionModel> {
    if rest.len() == 0 {
        None
    } else {
        let name_end = 1 + rest[0] as int;
        if rest.len() < name_end {
            None
        } else {
            match utf8_text(rest.subrange(1, name_end)) {
                None => None,
                Some(name) => if name_end >= rest.len() {
                    None
                } else {
                    match parse_labels(rest, name_end + 1, rest[name_end] as nat) {
                        None => None,
                        Some((candidates, _)) => Some(
                            InstructionModel::CreateElection { name, candidates },
                        ),
                    }
                },
            }
        }
    }
}

/// What a whole instruction buffer decodes to: a tag byte, then its payload.
pub open spec fn parse_instruction(b: Seq<u8>) -> Option<InstructionModel> {
    if b.len() == 0 {
        None
    } else {
        let rest = b.subrange(1, b.len() as int);
        if b[0] == 0 {
            parse_create(rest)
        } else if b[0] == 1 {
            if rest.len() == KEY_LEN {
                Some(InstructionModel::RegisterVoter { voter: key_of(rest) })
            } else {
                None
            }
        } else if b[0] == 2 {
            if rest.len() == KEY_LEN + 1 {
                Some(
                    InstructionModel::CastVote {
                        voter: key_of(rest.subrange(0, KEY_LEN as int)),
                        index: rest[KEY_LEN as int],
                    },
                )
            } else {
                None
            }
        } else {
            None
        }
    }
}

/// Each label takes at least its length byte, and the labels never run past
/// the end of the buffer.
pub proof fn lemma_labels_consume(b: Seq<u8>, off: int, count: nat)
    requires
        0 <= off,
        parse_labels(b, off, count) is Some,
    ensures
        parse_labels(b, off, count)->Some_0.1 >= off + count,
        count > 0 ==> parse_labels(b, off, count)->Some_0.1 <= b.len(),
    decreases count,
{
    if count > 0 {
        let end = off + 1 + b[off] as int;
        lemma_labels_consume(b, end, (count - 1) as nat);
    }
}

/// The decoder rejects an empty buffer, an unknown tag, a registration or
/// vote payload of the wrong length, a CreateElection whose name length runs
/// past the end, and one that declares more candidates than the bytes left
/// could hold.
pub proof fn lemma_decoder_rejects(b: Seq<u8>)
    ensures
        b.len() == 0 ==> parse_instruction(b) is None,
        b.len() > 0 && b[0] > 2 ==> parse_instruction(b) is None,
        b.len() > 0 && b[0] == 1 && b.len() != 1 + KEY_LEN ==> parse_instruction(b) is None,
        b.len() > 0 && b[0] == 2 && b.len() != 2 + KEY_LEN ==> parse_instruction(b) is None,
        b.len() > 1 && b[0] == 0 && b[1] > b.len() - 2 ==> parse_instruction(b) is None,
        b.len() > 1 && b[0] == 0 && 1 + b[1] + 1 < b.len() && b[2 + b[1]] > b.len() - (3 + b[1])
            ==> parse_instruction(b) is None,
{
    if b.len() > 1 && b[0] == 0 {
        let rest = b.subrange(1, b.len() as int);
        let name_end = 1 + rest[0] as int;
        if name_end < rest.len() {
            let count = rest[name_end] as nat;
            if parse_labels(rest, name_end + 1, count) is Some {
                lemma_labels_consume(rest, name_end + 1, count);
            }
        }
    }
}

/// Copies the first `KEY_LEN` bytes of `b` into a key.
fn read_key(b: &[u8]) -> (k: [u8; 32])
    requires
        b@.len() >= KEY_LEN,
    ensures
        k@ == b@.subrange(0, KEY_LEN as int),
        k == key_of(b@.subrange(0, KEY_LEN as int)),
{
    broadcast use vstd::array::group_array_axioms;

    let mut k: [u8; 32] = [0u8; 32];
    let mut i: usize = 0;
    while i < KEY_LEN
        invariant
            0 <= i <= KEY_LEN,
            b@.len() >= KEY_LEN,
            forall|j: int| 0 <= j < i ==> k[j] == b@[j],
        decreases KEY_LEN - i,
    {
        k[i] = b[i];
        i = i + 1;
    }
    assert(k@ =~= b@.subrange(0, KEY_LEN as int));
    let ghost c = key_of(b@.subrange(0, KEY_LEN as int));
    assert(c@ == b@.subrange(0, KEY_LEN as int));
    assert(c =~= k);
    k
}

impl RegisterVoter {
    /// Reads a registration payload: exactly one key.
    pub fn unpack(rest: &[u8]) -> (r: Option<RegisterVoter>)
        ensures
            r is Some <==> rest@.len() == KEY_LEN,
            r matches Some(p) ==> p.voter_pubkey == key_of(rest@) && p.voter_pubkey@ == rest@,
    {
        if rest.len() != KEY_LEN {
            return None;
        }
        let k = read_key(rest);
        assert(rest@.subrange(0, KEY_LEN as int) =~= rest@);
        Some(RegisterVoter { voter_pubkey: k })
    }
}

impl CastVote {
    /// Reads a vote payload: one key, then the candidate index byte.
    pub fn unpack(rest: &[u8]) -> (r: Option<CastVote>)
        ensures
            r is Some <==> rest@.len() == KEY_LEN + 1,
            r matches Some(p) ==> p.voter_pubkey == key_of(rest@.subrange(0, KEY_LEN as int))
                && p.voter_pubkey@ == rest@.subrange(0, KEY_LEN as int)
                && p.candidate_index == rest@[KEY_LEN as int],
    {
        if rest.len() != KEY_LEN + 1 {
            return None;
        }
        let k = read_key(rest);
        Some(CastVote { voter_pubkey: k, candidate_index: rest[KEY_LEN] })
    }
}

/// Decodes a CreateElection payload.
fn unpack_create(rest: &[u8]) -> (r: Option<ElectionInstruction>)
    ensures
        match parse_create(rest@) {
            Some(m) => r matches Some(i) && i@ == m,
            None => r is None,
        },
{
    if rest.len() == 0 {
        return None;
    }
    let name_len = rest[0] as usize;
    if name_len >= rest.len() {
        return None;
    }
    let name_end = 1 + name_len;
    let name = match text_of(slice_subrange(rest, 1, name_end)) {
        Some(s) => s,
        None => return None,
    };
    if name_end >= rest.len() {
        return None;
    }
    let count = rest[name_end] as usize;
    let mut candidates: Vec<String> = Vec::new();
    let mut offset = name_end + 1;
    let mut i: usize = 0;
    while i < count
        invariant
            0 <= i <= count,
            name_end < rest@.len(),
            count == rest@[name_end as int],
            name_end + 1 <= offset <= rest@.len(),
            parse_create(rest@) == match parse_labels(rest@, name_end + 1, count as nat) {
                Some((c, _)) => Some(InstructionModel::CreateElection { name: name@, candidates: c }),
                None => None,
            },
            parse_labels(rest@, name_end + 1, count as nat) == match parse_labels(
                rest@,
                offset as int,
                (count - i) as nat,
            ) {
                Some((tail, e)) => Some((texts(candidates@) + tail, e)),
                None => None,
            },
        decreases count - i,
    {
        if offset >= rest.len() {
            assert(parse_labels(rest@, offset as int, (count - i) as nat) is None);
            return None;
        }
        let label_len = rest[offset] as usize;
        if label_len >= rest.len() - offset {
            assert(parse_labels(rest@, offset as int, (count - i) as nat) is None);
            return None;
        }
        let end = offset + 1 + label_len;
        let label = match text_of(slice_subrange(rest, offset + 1, end)) {
            Some(s) => s,
            None => {
                assert(parse_labels(rest@, offset as int, (count - i) as nat) is None);
                return None;
            },
        };
        let ghost before = candidates@;
        candidates.push(label);
        proof {
            assert(texts(candidates@) =~= texts(before).push(label@));
            match parse_labels(rest@, end as int, (count - i - 1) as nat) {
                Some((tail, e)) => {
                    assert(texts(before) + (seq![label@] + tail) =~= texts(candidates@) + tail);
                },
                None => {},
            }
        }
        offset = end;
        i = i + 1;
    }
    assert(texts(candidates@) + Seq::<Seq<char>>::empty() =~= texts(candidates@));
    Some(ElectionInstruction::CreateElection { name, candidates })
}

impl ElectionInstruction {
    /// Decodes an instruction buffer. Fails with `InvalidInstructionData`
    /// exactly when the bytes do not follow the wire format.
    pub fn unpack(input: &[u8]) -> (r: Result<ElectionInstruction, ElectionError>)
        ensures
            match parse_instruction(input@) {
                Some(m) => r matches Ok(i) && i@ == m,
                None => r == Err::<ElectionInstruction, ElectionError>(
                    ElectionError::InvalidInstructionData,
                ),
            },
            r matches Ok(ElectionInstruction::RegisterVoter { voter_pubkey }) ==> voter_pubkey@
                == input@.subrange(1, 1 + KEY_LEN as int),
            r matches Ok(ElectionInstruction::CastVote { voter_pubkey, candidate_index: _ }) ==> voter_pubkey@
                == input@.subrange(1, 1 + KEY_LEN as int),
    {
        if input.len() == 0 {
            return Err(ElectionError::InvalidInstructionData);
        }
        let tag = input[0];
        let rest = slice_subrange(input, 1, input.len());
        if tag == 0 {
            match unpack_create(rest) {
                Some(i) => Ok(i),
                None => Err(ElectionError::InvalidInstructionData),
            }
        } else if tag == 1 {
            match RegisterVoter::unpack(rest) {
                Some(p) => Ok(ElectionInstruction::RegisterVoter { voter_pubkey: p.voter_pubkey }),
                None => Err(ElectionError::InvalidInstructionData),
            }
        } else if tag == 2 {
            match CastVote::unpack(rest) {
                Some(p) => Ok(
                    ElectionInstruction::CastVote {
                        voter_pubkey: p.voter_pubkey,
                        candidate_index: p.candidate_index,
                    },
                ),
                None => Err(ElectionError::InvalidInstructionData),
            }
        } else {
            Err(ElectionError::InvalidInstructionData)
        }
    }
}

} // verus!
