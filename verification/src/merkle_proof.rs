//! Merkle proofs: recomputing a root from claimed entries, judging it
//! against a claimed root, and compiling a proof once to replay it against
//! many roots.

use crate::digest::{
    contains_digest, digests_view, distinct_digests, has_distinct_digests, same_digest,
};
use crate::error::{classify, error_kind, tree_error, tree_error_spec, ErrorKind, TreeError};
use crate::hashing::Blake2bHasher;
use sparse_merkle_tree::error::Error;
use sparse_merkle_tree::{CompiledMerkleProof, MerkleProof, H256};
use vstd::prelude::*;

verus! {

/// The tree crate's proof type, carried through as an opaque value.
#[verifier::external_type_specification]
#[verifier::external_body]
pub struct ExMerkleProof(MerkleProof);

/// The program that compiling a proof for a set of keys gives, or the kind
/// of failure.
pub uninterp spec fn compiled_program(proof: MerkleProof, keys: Set<Seq<u8>>) -> Result<
    Seq<u8>,
    ErrorKind,
>;

/// What replaying a compiled program on a list of (key, leaf digest) pairs
/// gives: the root, or the kind of failure.
pub uninterp spec fn program_root(program: Seq<u8>, entries: Seq<(Seq<u8>, Seq<u8>)>) -> Result<
    Seq<u8>,
    ErrorKind,
>;

/// An entry list as pairs of byte sequences.
pub open spec fn entries_view(entries: Seq<([u8; 32], [u8; 32])>) -> Seq<(Seq<u8>, Seq<u8>)> {
    Seq::new(entries.len(), |i: int| (entries[i].0@, entries[i].1@))
}

/// The keys of a list of pairs, in order.
pub open spec fn pair_keys(pairs: Seq<(Seq<u8>, Seq<u8>)>) -> Seq<Seq<u8>> {
    Seq::new(pairs.len(), |i: int| pairs[i].0)
}

/// The keys of an entry list, in order.
pub open spec fn entry_keys(entries: Seq<([u8; 32], [u8; 32])>) -> Seq<[u8; 32]> {
    Seq::new(entries.len(), |i: int| entries[i].0)
}

/// The set of keys of an entry list.
pub open spec fn entry_key_set(entries: Seq<([u8; 32], [u8; 32])>) -> Set<Seq<u8>> {
    pair_keys(entries_view(entries)).to_set()
}

/// No key occurs twice among the entries.
pub open spec fn distinct_entry_keys(entries: Seq<([u8; 32], [u8; 32])>) -> bool {
    distinct_digests(entry_keys(entries))
}

/// The program is what some proof compiles to for exactly these keys.
pub open spec fn compiled_for(program: Seq<u8>, keys: Set<Seq<u8>>) -> bool {
    exists|proof: MerkleProof| #[trigger] compiled_program(proof, keys) == Ok::<Seq<u8>, ErrorKind>(program)
}

/// What recomputing the root from a proof and a list of (key, leaf digest)
/// pairs gives: the proof is compiled for the keys of the pairs, and the
/// program is replayed on the pairs.
pub open spec fn computed_root(proof: MerkleProof, pairs: Seq<(Seq<u8>, Seq<u8>)>) -> Result<
    Seq<u8>,
    ErrorKind,
> {
    match compiled_program(proof, pair_keys(pairs).to_set()) {
        Ok(program) => program_root(program, pairs),
        Err(kind) => Err(kind),
    }
}

/// A raw compilation outcome of the tree crate, as plain values.
pub open spec fn compilation_view(outcome: Result<Vec<u8>, Error>) -> Result<Seq<u8>, ErrorKind> {
    match outcome {
        Ok(program) => Ok(program@),
        Err(error) => Err(error_kind(error)),
    }
}

/// A raw replay outcome of the tree crate, as plain values.
pub open spec fn outcome_view(outcome: Result<[u8; 32], Error>) -> Result<Seq<u8>, ErrorKind> {
    match outcome {
        Ok(root) => Ok(root@),
        Err(error) => Err(error_kind(error)),
    }
}

/// Trusted: `MerkleProof::compile` sorts the keys first, so its outcome is
/// a function of the proof and the set of keys. With pairwise distinct
/// keys it returns; its bookkeeping can go wrong only when keys repeat.
#[verifier::external_body]
fn proof_compile(proof: MerkleProof, keys: &Vec<[u8; 32]>) -> (outcome: Result<Vec<u8>, Error>)
    requires
        distinct_digests(keys@),
    ensures
        compilation_view(outcome) == compiled_program(proof, digests_view(keys@).to_set()),
{
    proof.compile(keys.iter().map(|key| H256::from(*key)).collect()).map(|compiled| compiled.0)
}

/// Trusted: `CompiledMerkleProof::compute_root`, hashing with
/// `Blake2bHasher`, is a function of the program and the entries. It
/// returns when the program was compiled for exactly the keys of the
/// entries and no key repeats.
#[verifier::external_body]
fn program_compute_root(program: &Vec<u8>, entries: Vec<([u8; 32], [u8; 32])>) -> (outcome: Result<
    [u8; 32],
    Error,
>)
    requires
        distinct_entry_keys(entries@),
        compiled_for(program@, entry_key_set(entries@)),
    ensures
        outcome_view(outcome) == program_root(program@, entries_view(entries@)),
{
    let leaves = entries.into_iter().map(|(k, v)| (H256::from(k), H256::from(v))).collect();
    let compiled = CompiledMerkleProof(program.clone());
    compiled.compute_root::<Blake2bHasher>(leaves).map(<[u8; 32]>::from)
}

/// A recomputed root, or the kind of failure, as plain values.
pub open spec fn recomputation_view(outcome: Result<[u8; 32], ErrorKind>) -> Result<
    Seq<u8>,
    ErrorKind,
> {
    match outcome {
        Ok(root) => Ok(root@),
        Err(kind) => Err(kind),
    }
}

/// The verdict on a recomputed root: `true` exactly when it is the claimed
/// root, `false` when it is another one, and the matching error when the
/// recomputation failed.
pub open spec fn judge_spec(outcome: Result<Seq<u8>, ErrorKind>, claimed: Seq<u8>) -> Result<
    bool,
    TreeError,
> {
    match outcome {
        Ok(root) => Ok(root == claimed),
        Err(kind) => Err(tree_error_spec(kind)),
    }
}

/// The root that a recomputation yields, with a failure reported as the
/// matching error.
pub open spec fn root_spec(outcome: Result<Seq<u8>, ErrorKind>) -> Result<Seq<u8>, TreeError> {
    match outcome {
        Ok(root) => Ok(root),
        Err(kind) => Err(tree_error_spec(kind)),
    }
}

/// A result that holds a digest, as plain values.
pub open spec fn digest_result_view(res: Result<[u8; 32], TreeError>) -> Result<Seq<u8>, TreeError> {
    match res {
        Ok(root) => Ok(root@),
        Err(error) => Err(error),
    }
}

/// Judges the outcome of a root recomputation against a claimed root.
pub fn judge(outcome: Result<[u8; 32], ErrorKind>, claimed: &[u8; 32]) -> (verdict: Result<
    bool,
    TreeError,
>)
    ensures
        verdict == judge_spec(recomputation_view(outcome), claimed@),
{
    match outcome {
        Ok(root) => Ok(same_digest(&root, claimed)),
        Err(kind) => Err(tree_error(kind)),
    }
}

/// Returns the keys of an entry list, in order.
pub fn keys_of_entries(entries: &Vec<([u8; 32], [u8; 32])>) -> (keys: Vec<[u8; 32]>)
    ensures
        keys@ == entry_keys(entries@),
{
    let n = entries.len();
    let mut keys: Vec<[u8; 32]> = Vec::new();
    let mut i: usize = 0;
    while i < n
        invariant
            i <= n,
            n == entries@.len(),
            keys@.len() == i,
            forall|j: int| 0 <= j < i ==> keys@[j] == entries@[j].0,
        decreases n - i,
    {
        keys.push(entries[i].0);
        i += 1;
    }
    keys
}

/// Tells whether every digest of `list` occurs in `other`.
pub fn all_contained(list: &Vec<[u8; 32]>, other: &Vec<[u8; 32]>) -> (contained: bool)
    ensures
        contained == digests_view(list@).to_set().subset_of(digests_view(other@).to_set()),
{
    let n = list.len();
    let mut i: usize = 0;
    while i < n
        invariant
            i <= n,
            n == list@.len(),
            forall|j: int| 0 <= j < i ==> digests_view(other@).contains(#[trigger] list@[j]@),
        decreases n - i,
    {
        if !contains_digest(other, &list[i]) {
            assert(digests_view(list@)[i as int] == list@[i as int]@);
            assert(digests_view(list@).to_set().contains(list@[i as int]@));
            return false;
        }
        i += 1;
    }
    assert forall|d: Seq<u8>| digests_view(list@).to_set().contains(d) implies digests_view(
        other@,
    ).to_set().contains(d) by {
        let j = choose|j: int| 0 <= j < digests_view(list@).len() && digests_view(list@)[j] == d;
    }
    true
}

/// The keys of an entry list are the keys of its pairs.
pub proof fn lemma_entry_keys_view(entries: Seq<([u8; 32], [u8; 32])>)
    ensures
        digests_view(entry_keys(entries)) == pair_keys(entries_view(entries)),
        digests_view(entry_keys(entries)).to_set() == entry_key_set(entries),
{
    assert(digests_view(entry_keys(entries)) =~= pair_keys(entries_view(entries)));
}

/// Tells whether no key occurs twice among the entries and their keys are
/// exactly the given keys.
pub fn entries_fit_keys(keys: &Vec<[u8; 32]>, entries: &Vec<([u8; 32], [u8; 32])>) -> (fits: bool)
    ensures
        fits == (distinct_entry_keys(entries@) && entry_key_set(entries@) == digests_view(
            keys@,
        ).to_set()),
{
    let given = keys_of_entries(entries);
    proof {
        lemma_entry_keys_view(entries@);
    }
    if !has_distinct_digests(&given) {
        return false;
    }
    let fits = all_contained(&given, keys) && all_contained(keys, &given);
    assert(fits == (entry_key_set(entries@) =~= digests_view(keys@).to_set()));
    fits
}

/// A proof that some keys hold some leaf digests under a root, together
/// with the keys it was made for.
pub struct Proof {
    inner: MerkleProof,
    keys: Vec<[u8; 32]>,
}

impl Proof {
    /// No key occurs twice among the keys of a proof.
    #[verifier::type_invariant]
    spec fn has_distinct_keys(self) -> bool {
        distinct_digests(self.keys@)
    }

    /// The keys the proof was made for, in the order they were asked for.
    pub closed spec fn key_list(&self) -> Seq<[u8; 32]> {
        self.keys@
    }

    /// The sibling digests and path bitmaps that the tree generated.
    pub closed spec fn generated(&self) -> MerkleProof {
        self.inner
    }

    /// The set of keys the proof was made for.
    pub open spec fn key_set(&self) -> Set<Seq<u8>> {
        digests_view(self.key_list()).to_set()
    }

    /// The entries fit the proof: no key occurs twice among them, and
    /// their keys are exactly the keys the proof was made for.
    pub open spec fn fits(&self, entries: Seq<([u8; 32], [u8; 32])>) -> bool {
        distinct_entry_keys(entries) && entry_key_set(entries) == self.key_set()
    }

    /// What recomputing the root from this proof and the given entries
    /// gives.
    pub open spec fn recomputed(&self, entries: Seq<([u8; 32], [u8; 32])>) -> Result<
        Seq<u8>,
        ErrorKind,
    > {
        computed_root(self.generated(), entries_view(entries))
    }

    /// The root the proof yields for the entries. Entries that do not fit
    /// the proof are a key mismatch; a failed recomputation is reported as
    /// the matching error.
    pub open spec fn compute_root_spec(&self, entries: Seq<([u8; 32], [u8; 32])>) -> Result<
        Seq<u8>,
        TreeError,
    > {
        if !self.fits(entries) {
            Err(TreeError::KeyMismatch)
        } else {
            root_spec(self.recomputed(entries))
        }
    }

    /// The result of verification. Entries that do not fit the proof are a
    /// key mismatch; otherwise the recomputed root is judged against the
    /// claimed one.
    pub open spec fn verify_spec(&self, root: Seq<u8>, entries: Seq<([u8; 32], [u8; 32])>) -> Result<
        bool,
        TreeError,
    > {
        if !self.fits(entries) {
            Err(TreeError::KeyMismatch)
        } else {
            judge_spec(self.recomputed(entries), root)
        }
    }

    /// The result of compiling the proof for its own keys.
    pub open spec fn compile_spec(&self) -> Result<Seq<u8>, TreeError> {
        root_spec(compiled_program(self.generated(), self.key_set()))
    }

    /// Puts a generated proof together with the keys it was made for.
    pub(crate) fn from_parts(inner: MerkleProof, keys: Vec<[u8; 32]>) -> (proof: Self)
        requires
            distinct_digests(keys@),
        ensures
            proof.generated() == inner,
            proof.key_list() == keys@,
    {
        Proof { inner, keys }
    }

    /// Returns the number of keys the proof was made for.
    pub fn leaves_count(&self) -> (count: usize)
        ensures
            count == self.key_list().len(),
    {
        self.keys.len()
    }

    /// Returns the keys the proof was made for.
    pub fn keys(&self) -> (keys: &Vec<[u8; 32]>)
        ensures
            keys@ == self.key_list(),
    {
        &self.keys
    }

    /// Tells whether the entries fit the proof.
    pub fn fits_entries(&self, entries: &Vec<([u8; 32], [u8; 32])>) -> (fits: bool)
        ensures
            fits == self.fits(entries@),
    {
        entries_fit_keys(&self.keys, entries)
    }

    /// Recomputes the root that the proof yields for the given entries.
    pub fn compute_root(self, entries: Vec<([u8; 32], [u8; 32])>) -> (res: Result<
        [u8; 32],
        TreeError,
    >)
        ensures
            digest_result_view(res) == self.compute_root_spec(entries@),
    {
        if !self.fits_entries(&entries) {
            return Err(TreeError::KeyMismatch);
        }
        match self.replay(entries) {
            Ok(root) => Ok(root),
            Err(kind) => Err(tree_error(kind)),
        }
    }

    /// Verifies the proof: recomputes the root from the entries and
    /// compares it with the claimed root.
    pub fn verify(self, root: &[u8; 32], entries: Vec<([u8; 32], [u8; 32])>) -> (res: Result<
        bool,
        TreeError,
    >)
        ensures
            res == self.verify_spec(root@, entries@),
    {
        if !self.fits_entries(&entries) {
            return Err(TreeError::KeyMismatch);
        }
        judge(self.replay(entries), root)
    }

    /// Compiles the proof for the keys of the entries and replays the
    /// program on them.
    fn replay(self, entries: Vec<([u8; 32], [u8; 32])>) -> (outcome: Result<[u8; 32], ErrorKind>)
        requires
            distinct_entry_keys(entries@),
        ensures
            recomputation_view(outcome) == self.recomputed(entries@),
    {
        let keys = keys_of_entries(&entries);
        proof {
            lemma_entry_keys_view(entries@);
        }
        match proof_compile(self.inner, &keys) {
            Ok(program) => match program_compute_root(&program, entries) {
                Ok(root) => Ok(root),
                Err(error) => Err(classify(&error)),
            },
            Err(error) => Err(classify(&error)),
        }
    }

    /// Compiles the proof for its own keys, so that it can be replayed
    /// against many roots.
    pub fn compile(self) -> (res: Result<CompiledProof, TreeError>)
        ensures
            res is Ok <==> self.compile_spec() is Ok,
            res matches Err(error) ==> self.compile_spec() == Err::<Seq<u8>, TreeError>(error),
            res matches Ok(compiled) ==> self.compile_spec() == Ok::<Seq<u8>, TreeError>(
                compiled.program_bytes(),
            ) && compiled.key_list() == self.key_list(),
    {
        proof {
            use_type_invariant(&self);
        }
        match proof_compile(self.inner, &self.keys) {
            Ok(program) => Ok(
                CompiledProof { program, keys: self.keys, source: Ghost(self.inner) },
            ),
            Err(error) => Err(tree_error(classify(&error))),
        }
    }
}

/// A proof compiled for its keys into a program that recomputes the root
/// without the proof having to be walked again.
pub struct CompiledProof {
    program: Vec<u8>,
    keys: Vec<[u8; 32]>,
    source: Ghost<MerkleProof>,
}

impl CompiledProof {
    /// The program is what the proof it came from compiles to for the
    /// keys, and no key occurs twice.
    #[verifier::type_invariant]
    spec fn is_compiled(self) -> bool {
        &&& distinct_digests(self.keys@)
        &&& compiled_program(self.source@, digests_view(self.keys@).to_set()) == Ok::<
            Seq<u8>,
            ErrorKind,
        >(self.program@)
    }

    /// The bytes of the program.
    pub closed spec fn program_bytes(&self) -> Seq<u8> {
        self.program@
    }

    /// The keys the proof was compiled for, in the order they were asked
    /// for.
    pub closed spec fn key_list(&self) -> Seq<[u8; 32]> {
        self.keys@
    }

    /// The set of keys the proof was compiled for.
    pub open spec fn key_set(&self) -> Set<Seq<u8>> {
        digests_view(self.key_list()).to_set()
    }

    /// The entries fit the proof: no key occurs twice among them, and
    /// their keys are exactly the keys the proof was compiled for.
    pub open spec fn fits(&self, entries: Seq<([u8; 32], [u8; 32])>) -> bool {
        distinct_entry_keys(entries) && entry_key_set(entries) == self.key_set()
    }

    /// What replaying the program on the given entries gives.
    pub open spec fn replayed(&self, entries: Seq<([u8; 32], [u8; 32])>) -> Result<
        Seq<u8>,
        ErrorKind,
    > {
        program_root(self.program_bytes(), entries_view(entries))
    }

    /// The root the program yields for the entries.
    pub open spec fn compute_root_spec(&self, entries: Seq<([u8; 32], [u8; 32])>) -> Result<
        Seq<u8>,
        TreeError,
    > {
        if !self.fits(entries) {
            Err(TreeError::KeyMismatch)
        } else {
            root_spec(self.replayed(entries))
        }
    }

    /// The result of verification.
    pub open spec fn verify_spec(&self, root: Seq<u8>, entries: Seq<([u8; 32], [u8; 32])>) -> Result<
        bool,
        TreeError,
    > {
        if !self.fits(entries) {
            Err(TreeError::KeyMismatch)
        } else {
            judge_spec(self.replayed(entries), root)
        }
    }

    /// Returns the bytes of the program.
    pub fn program(&self) -> (program: &Vec<u8>)
        ensures
            program@ == self.program_bytes(),
    {
        &self.program
    }

    /// Returns the keys the proof was compiled for.
    pub fn keys(&self) -> (keys: &Vec<[u8; 32]>)
        ensures
            keys@ == self.key_list(),
    {
        &self.keys
    }

    /// Tells whether the entries fit the proof.
    pub fn fits_entries(&self, entries: &Vec<([u8; 32], [u8; 32])>) -> (fits: bool)
        ensures
            fits == self.fits(entries@),
    {
        entries_fit_keys(&self.keys, entries)
    }

    /// Replays the program on entries that fit.
    fn replay(&self, entries: Vec<([u8; 32], [u8; 32])>) -> (outcome: Result<[u8; 32], ErrorKind>)
        requires
            self.fits(entries@),
        ensures
            recomputation_view(outcome) == self.replayed(entries@),
    {
        proof {
            use_type_invariant(self);
            assert(compiled_program(self.source@, entry_key_set(entries@)) == Ok::<
                Seq<u8>,
                ErrorKind,
            >(self.program@));
        }
        match program_compute_root(&self.program, entries) {
            Ok(root) => Ok(root),
            Err(error) => Err(classify(&error)),
        }
    }

    /// Recomputes the root that the program yields for the given entries.
    pub fn compute_root(&self, entries: Vec<([u8; 32], [u8; 32])>) -> (res: Result<
        [u8; 32],
        TreeError,
    >)
        ensures
            digest_result_view(res) == self.compute_root_spec(entries@),
    {
        if !self.fits_entries(&entries) {
            return Err(TreeError::KeyMismatch);
        }
        match self.replay(entries) {
            Ok(root) => Ok(root),
            Err(kind) => Err(tree_error(kind)),
        }
    }

    /// Verifies the entries against a claimed root by replaying the
    /// program.
    pub fn verify(&self, root: &[u8; 32], entries: Vec<([u8; 32], [u8; 32])>) -> (res: Result<
        bool,
        TreeError,
    >)
        ensures
            res == self.verify_spec(root@, entries@),
    {
        if !self.fits_entries(&entries) {
            return Err(TreeError::KeyMismatch);
        }
        judge(self.replay(entries), root)
    }
}

/// Verification is recomputation followed by a comparison with the claimed
/// root.
pub proof fn lemma_verify_is_compare(proof: Proof, root: Seq<u8>, entries: Seq<([u8; 32], [u8; 32])>)
    ensures
        proof.verify_spec(root, entries) == match proof.compute_root_spec(entries) {
            Ok(computed) => Ok::<bool, TreeError>(computed == root),
            Err(error) => Err::<bool, TreeError>(error),
        },
{
}

/// A compiled proof gives the verdict of the proof it was compiled from,
/// for every root and every list of entries.
pub proof fn lemma_compiled_proof_gives_same_verdict(
    proof: Proof,
    compiled: CompiledProof,
    root: Seq<u8>,
    entries: Seq<([u8; 32], [u8; 32])>,
)
    requires
        compiled.key_list() == proof.key_list(),
        proof.compile_spec() == Ok::<Seq<u8>, TreeError>(compiled.program_bytes()),
    ensures
        compiled.verify_spec(root, entries) == proof.verify_spec(root, entries),
        compiled.compute_root_spec(entries) == proof.compute_root_spec(entries),
{
}

/// Entries whose keys are not exactly the keys the proof was made for are
/// rejected as a key mismatch, whatever root is claimed.
pub proof fn lemma_other_keys_are_key_mismatch(
    proof: Proof,
    root: Seq<u8>,
    entries: Seq<([u8; 32], [u8; 32])>,
)
    requires
        entry_key_set(entries) != proof.key_set(),
    ensures
        proof.verify_spec(root, entries) == Err::<bool, TreeError>(TreeError::KeyMismatch),
{
}

/// A proof made for two different keys rejects either of them alone as a
/// key mismatch, whatever digest and root are claimed.
pub proof fn lemma_one_of_two_pairs_is_key_mismatch(
    proof: Proof,
    root: Seq<u8>,
    entry: ([u8; 32], [u8; 32]),
)
    requires
        proof.key_list().len() == 2,
        proof.key_list()[0]@ != proof.key_list()[1]@,
    ensures
        proof.verify_spec(root, seq![entry]) == Err::<bool, TreeError>(TreeError::KeyMismatch),
{
    let keys = digests_view(proof.key_list());
    let given = pair_keys(entries_view(seq![entry]));
    assert(keys[0] == proof.key_list()[0]@);
    assert(keys[1] == proof.key_list()[1]@);
    assert(keys.contains(keys[0]));
    assert(keys.contains(keys[1]));
    if entry_key_set(seq![entry]) == proof.key_set() {
        assert(given.to_set().contains(keys[0]));
        assert(given.to_set().contains(keys[1]));
        let a = choose|a: int| 0 <= a < given.len() && given[a] == keys[0];
        let b = choose|b: int| 0 <= b < given.len() && given[b] == keys[1];
        assert(a == 0 && b == 0);
    }
}

/// Verification accepts exactly when the entries fit the proof and the
/// recomputation succeeds with the claimed root.
pub proof fn lemma_verify_accepts_only_claimed_root(
    proof: Proof,
    root: Seq<u8>,
    entries: Seq<([u8; 32], [u8; 32])>,
)
    ensures
        proof.verify_spec(root, entries) == Ok::<bool, TreeError>(true) <==> proof.fits(entries)
            && proof.recomputed(entries) == Ok::<Seq<u8>, ErrorKind>(root),
{
}

/// A tampered leaf digest is rejected. If a proof accepts `digest` under
/// `key` for `root`, it answers `false` for any other digest under the
/// same key, root and proof, unless the hash collides: the other digest is
/// taken to recompute to a root, and to another one than `digest` does.
pub proof fn lemma_tampered_digest_is_rejected(
    proof: Proof,
    root: Seq<u8>,
    key: [u8; 32],
    digest: [u8; 32],
    tampered: [u8; 32],
)
    requires
        proof.verify_spec(root, seq![(key, digest)]) == Ok::<bool, TreeError>(true),
        proof.recomputed(seq![(key, tampered)]) is Ok,
        proof.recomputed(seq![(key, tampered)]) != proof.recomputed(seq![(key, digest)]),
    ensures
        proof.verify_spec(root, seq![(key, tampered)]) == Ok::<bool, TreeError>(false),
{
    let given = seq![(key, digest)];
    let other = seq![(key, tampered)];
    assert(entry_keys(other) =~= entry_keys(given));
    assert(pair_keys(entries_view(other)) =~= pair_keys(entries_view(given)));
}

} // verus!
