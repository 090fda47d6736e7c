use crate::error::ElectionError;
use vstd::prelude::*;

verus! {

/// Width in bytes of a voter's public key.
pub const KEY_LEN: usize = 32;

/// The election record as values: what an `Election` holds.
pub struct ElectionModel {
    pub name: Seq<char>,
    pub candidates: Seq<Seq<char>>,
    pub votes: Seq<u64>,
    pub voters: Seq<[u8; 32]>,
}

impl ElectionModel {
    /// One counter per candidate, and no voter twice.
    pub open spec fn wf(self) -> bool {
        &&& self.votes.len() == self.candidates.len()
        &&& self.voters.no_duplicates()
    }
}

/// The record with every field empty: what a freshly allocated buffer holds.
pub open spec fn empty_model() -> ElectionModel {
    ElectionModel { name: Seq::empty(), candidates: Seq::empty(), votes: Seq::empty(), voters: Seq::empty() }
}

/// The record stored in one account buffer.
#[derive(Debug, Clone, PartialEq, Eq)]
pub struct Election {
    pub name: String,
    pub candidates: Vec<String>,
    pub votes: Vec<u64>,
    pub voters: Vec<[u8; 32]>,
}

/// The text of each label in a list of labels.
pub open spec fn texts(v: Seq<String>) -> Seq<Seq<char>> {
    v.map_values(|s: String| s@)
}

impl View for Election {
    type V = ElectionModel;

    open spec fn view(&self) -> ElectionModel {
        ElectionModel {
            name: self.name@,
            candidates: texts(self.candidates@),
            votes: self.votes@,
            voters: self.voters@,
        }
    }
}

/// The bytes that borsh writes for a record, or `None` when it cannot write it.
pub uninterp spec fn borsh_bytes(m: ElectionModel) -> Option<Seq<u8>>;

/// Whether borsh's bytes for `m` stand at the front of `b`.
pub open spec fn decodes_to(b: Seq<u8>, m: ElectionModel) -> bool {
    borsh_bytes(m) matches Some(x) && x.len() <= b.len() && b.subrange(0, x.len() as int) == x
}

/// Every length that borsh writes as a `u32` fits one: the text fields
/// counted at four bytes a character, the widest that UTF-8 uses.
pub open spec fn lengths_fit(m: ElectionModel) -> bool {
    &&& 4 * m.name.len() <= u32::MAX
    &&& m.candidates.len() <= u32::MAX
    &&& forall|i: int| 0 <= i < m.candidates.len() ==> 4 * #[trigger] m.candidates[i].len() <= u32::MAX
    &&& m.votes.len() <= u32::MAX
    &&& m.voters.len() <= u32::MAX
}

/// Relies on `BorshDeserialize::deserialize` for the tuple of the four fields:
/// it reads one record from the front of the buffer, and what it reads is the
/// record whose bytes, as `borsh::to_vec` writes them, stand there.
#[verifier::external_body]
fn read_fields(b: &[u8]) -> (r: Option<Election>)
    ensures
        r matches Some(e) ==> decodes_to(b@, e@),
        forall|m: ElectionModel| #[trigger] decodes_to(b@, m) ==> (r is Some && r->Some_0@ == m),
{
    let mut rest = b;
    match <(String, Vec<String>, Vec<u64>, Vec<[u8; 32]>) as borsh::BorshDeserialize>::deserialize(
        &mut rest,
    ) {
        Ok((name, candidates, votes, voters)) => Some(Election { name, candidates, votes, voters }),
        Err(_) => None,
    }
}

/// Relies on `borsh::to_vec` for the tuple of the four fields: the bytes
/// depend on the record alone, and it fails only where a length does not fit
/// in a `u32`.
#[verifier::external_body]
fn write_fields(e: &Election) -> (r: Option<Vec<u8>>)
    ensures
        r is Some <==> borsh_bytes(e@) is Some,
        r matches Some(b) ==> borsh_bytes(e@) == Some(b@),
        lengths_fit(e@) ==> r is Some,
{
    borsh::to_vec(&(&e.name, &e.candidates, &e.votes, &e.voters)).ok()
}

/// Whether two keys are the same.
pub fn same_key(a: &[u8; 32], b: &[u8; 32]) -> (r: bool)
    ensures
        r == (*a == *b),
{
    broadcast use vstd::array::group_array_axioms;

    let mut i: usize = 0;
    while i < KEY_LEN
        invariant
            0 <= i <= KEY_LEN,
            forall|j: int| 0 <= j < i ==> a[j] == b[j],
        decreases KEY_LEN - i,
    {
        if a[i] != b[i] {
            return false;
        }
        i = i + 1;
    }
    assert(*a =~= *b);
    true
}

/// Whether `key` is among `keys`.
pub fn contains_key(keys: &Vec<[u8; 32]>, key: &[u8; 32]) -> (r: bool)
    ensures
        r == keys@.contains(*key),
{
    let mut i: usize = 0;
    while i < keys.len()
        invariant
            0 <= i <= keys.len(),
            forall|j: int| 0 <= j < i ==> keys@[j] != *key,
        decreases keys.len() - i,
    {
        if same_key(&keys[i], key) {
            return true;
        }
        i = i + 1;
    }
    false
}

/// Whether no key occurs twice in `keys`.
pub fn keys_distinct(keys: &Vec<[u8; 32]>) -> (r: bool)
    ensures
        r == keys@.no_duplicates(),
{
    let mut i: usize = 0;
    while i < keys.len()
        invariant
            0 <= i <= keys.len(),
            forall|a: int, b: int| 0 <= a < b < keys.len() && a < i ==> keys@[a] != keys@[b],
        decreases keys.len() - i,
    {
        let mut j: usize = i + 1;
        while j < keys.len()
            invariant
                i < keys.len(),
                i + 1 <= j <= keys.len(),
                forall|a: int, b: int| 0 <= a < b < keys.len() && a < i ==> keys@[a] != keys@[b],
                forall|b: int| i < b < j ==> keys@[i as int] != keys@[b],
            decreases keys.len() - j,
        {
            if same_key(&keys[i], &keys[j]) {
                return false;
            }
            j = j + 1;
        }
        i = i + 1;
    }
    true
}

impl Election {
    /// The record with every field empty.
    pub fn new() -> (r: Election)
        ensures
            r@ == empty_model(),
    {
        let r = Election { name: String::new(), candidates: Vec::new(), votes: Vec::new(), voters: Vec::new() };
        assert(r@.name =~= Seq::<char>::empty());
        assert(r@.candidates =~= Seq::<Seq<char>>::empty());
        r
    }

    /// Reads the record stored at the front of `data`. The record must be
    /// well formed: one counter per candidate and no voter twice.
    pub fn unpack(data: &[u8]) -> (r: Result<Election, ElectionError>)
        ensures
            r matches Ok(e) ==> decodes_to(data@, e@) && e@.wf(),
            r is Err ==> r == Err::<Election, ElectionError>(ElectionError::MalformedRecord),
            forall|m: ElectionModel| #[trigger] decodes_to(data@, m) ==> if m.wf() {
                r is Ok && r->Ok_0@ == m
            } else {
                r == Err::<Election, ElectionError>(ElectionError::MalformedRecord)
            },
    {
        match read_fields(data) {
            Some(e) => {
                if e.votes.len() == e.candidates.len() && keys_distinct(&e.voters) {
                    Ok(e)
                } else {
                    Err(ElectionError::MalformedRecord)
                }
            },
            None => Err(ElectionError::MalformedRecord),
        }
    }

    /// The bytes of this record, as borsh writes them. They come whenever
    /// every length fits in a `u32`.
    pub fn pack(&self) -> (r: Option<Vec<u8>>)
        ensures
            r is Some <==> borsh_bytes(self@) is Some,
            r matches Some(b) ==> borsh_bytes(self@) == Some(b@),
            lengths_fit(self@) ==> r is Some,
    {
        write_fields(self)
    }
}

/// A record's bytes, alone or followed by any other bytes, decode to that
/// record; with `Election::unpack` this gives back every well-formed record
/// that `Election::pack` wrote.
pub proof fn lemma_round_trip(m: ElectionModel, b: Seq<u8>, rest: Seq<u8>)
    requires
        borsh_bytes(m) == Some(b),
    ensures
        decodes_to(b, m),
        decodes_to(b + rest, m),
{
    assert(b.subrange(0, b.len() as int) =~= b);
    assert((b + rest).subrange(0, b.len() as int) =~= b);
}

} // verus!
