//! The searcher: a cache policy, what is retained of the xdb file under it,
//! and the queries that are answered from that.
//!
//! The searcher reads no file. It tells its caller when a query needs the
//! file's bytes (`needs_file`), is handed them with the query, and keeps of
//! them what the policy says. What it has retained never changes again.

use crate::config::CachePolicy;
use crate::error::SearchError;
use crate::ip::ToUIntIP;
use crate::searcher::{get_vector_index_cache, search_by_ip, search_with_vector_index};
use crate::xdb::{
    lookup, rejected, search_with, text_of, vector_index_of, VECTOR_INDEX_LENGTH,
};
use once_cell::sync::OnceCell;
use vstd::prelude::*;
use vstd::slice::slice_to_vec;

verus! {

/// `once_cell::sync::OnceCell`, a cell that is written at most once. Its
/// inside is not modelled: what a cell holds goes by `cell_bytes`.
#[verifier::external_type_specification]
#[verifier::external_body]
#[verifier::reject_recursive_types(T)]
pub struct ExOnceCell<T>(OnceCell<T>);

/// The bytes that a cell holds, if it has been filled. Nothing is proved
/// of it: the three functions below say what `OnceCell::new`,
/// `OnceCell::get` and `OnceCell::set` make of it.
pub uninterp spec fn cell_bytes(cell: OnceCell<Vec<u8>>) -> Option<Seq<u8>>;

/// `OnceCell::new`. Trusted: the new cell is empty.
#[verifier::external_body]
fn cell_new() -> (cell: OnceCell<Vec<u8>>)
    ensures
        cell_bytes(cell) is None,
{
    OnceCell::new()
}

/// `OnceCell::get`. Trusted: the call hands out what the cell holds, and
/// nothing where the cell is empty.
#[verifier::external_body]
fn cell_get(cell: &OnceCell<Vec<u8>>) -> (r: Option<&Vec<u8>>)
    ensures
        match r {
            Some(bytes) => cell_bytes(*cell) == Some(bytes@),
            None => cell_bytes(*cell) is None,
        },
{
    cell.get()
}

/// `OnceCell::set`. Trusted: an empty cell takes the bytes and the call
/// returns `Ok`; a filled cell keeps what it holds and the call hands the
/// bytes back in `Err`. The cell is borrowed exclusively, so that nothing
/// else can fill it while a caller relies on what it was seen to hold.
#[verifier::external_body]
fn cell_set(cell: &mut OnceCell<Vec<u8>>, bytes: Vec<u8>) -> (r: Result<(), Vec<u8>>)
    ensures
        cell_bytes(*old(cell)) is None ==> r is Ok && cell_bytes(*final(cell)) == Some(bytes@),
        cell_bytes(*old(cell)) is Some ==> r is Err && r->Err_0@ == bytes@ && cell_bytes(
            *final(cell),
        ) == cell_bytes(*old(cell)),
{
    cell.set(bytes)
}

/// What a searcher is at one moment: its policy and what it has retained.
pub struct CacheState {
    pub policy: CachePolicy,
    /// The whole file, once a `Full` searcher has been handed it.
    pub full: Option<Seq<u8>>,
    /// The vector index, once a `VecIndex` searcher has been handed a file.
    pub vector_index: Option<Seq<u8>>,
}

impl CacheState {
    /// A searcher that has retained nothing yet.
    pub open spec fn empty(policy: CachePolicy) -> CacheState {
        CacheState { policy, full: None, vector_index: None }
    }

    /// What holds of every searcher: it has retained only what its policy
    /// keeps, and a retained vector index is a whole one.
    pub open spec fn wf(self) -> bool {
        match self.policy {
            CachePolicy::Never => self.full is None && self.vector_index is None,
            CachePolicy::VecIndex => self.full is None && (self.vector_index matches Some(index)
                ==> index.len() == VECTOR_INDEX_LENGTH),
            CachePolicy::Full => self.vector_index is None,
        }
    }

    /// Whether the next query has to be handed the bytes of the file: always
    /// under `Never` and `VecIndex`, under `Full` until the file is retained.
    pub open spec fn needs_file(self) -> bool {
        !(self.policy == CachePolicy::Full && self.full is Some)
    }

    /// The searcher after a query that was handed `loaded`: what was
    /// retained stays, and what the policy keeps of `loaded` is retained
    /// where nothing was.
    pub open spec fn after(self, loaded: Option<Seq<u8>>) -> CacheState {
        match (self.policy, loaded) {
            (CachePolicy::Full, Some(file)) if self.full is None => CacheState {
                full: Some(file),
                ..self
            },
            (CachePolicy::VecIndex, Some(file)) if self.vector_index is None && vector_index_of(
                file,
            ) is Some => CacheState { vector_index: vector_index_of(file), ..self },
            _ => self,
        }
    }

    /// What a query for `ip` that was handed `loaded` yields. Under `Never`
    /// the answer comes from `loaded`; under `VecIndex` the cell comes from
    /// the retained vector index and the rest from `loaded`; under `Full`
    /// the answer comes from the retained file. A query that needs the file
    /// and is handed none is an `IoError`.
    pub open spec fn resolve(self, loaded: Option<Seq<u8>>, ip: u32) -> Result<
        Seq<char>,
        SearchError,
    > {
        match self.policy {
            CachePolicy::Never => match loaded {
                Some(file) => lookup(file, ip),
                None => Err(SearchError::IoError),
            },
            CachePolicy::VecIndex => match loaded {
                Some(file) => match self.after(loaded).vector_index {
                    Some(index) => search_with(index, file, ip),
                    None => Err(SearchError::DataError),
                },
                None => Err(SearchError::IoError),
            },
            CachePolicy::Full => match self.after(loaded).full {
                Some(file) => lookup(file, ip),
                None => Err(SearchError::IoError),
            },
        }
    }
}

/// Number of times the file is read over `queries` queries in a row, when
/// the file is read for exactly the queries that need it and every read
/// yields `file`.
pub open spec fn file_reads(state: CacheState, file: Seq<u8>, queries: nat) -> nat
    decreases queries,
{
    if queries == 0 {
        0
    } else if state.needs_file() {
        1 + file_reads(state.after(Some(file)), file, (queries - 1) as nat)
    } else {
        file_reads(state.after(None), file, (queries - 1) as nat)
    }
}

/// A query leaves a searcher such that it has retained only what its policy
/// keeps.
pub proof fn lemma_after_keeps_wf(state: CacheState, loaded: Option<Seq<u8>>)
    requires
        state.wf(),
    ensures
        state.after(loaded).wf(),
{
}

/// Asking again changes nothing: a query that is handed the same bytes as
/// the one before it yields the same answer and leaves the searcher as the
/// first one left it, under every policy.
pub proof fn lemma_repeated_query_same_answer(state: CacheState, loaded: Option<Seq<u8>>, ip: u32)
    ensures
        state.after(loaded).after(loaded) == state.after(loaded),
        state.after(loaded).resolve(loaded, ip) == state.resolve(loaded, ip),
{
}

/// Once a `Full` searcher has retained a file, every query is answered
/// from that file and leaves the searcher unchanged, whatever it is handed.
pub proof fn lemma_retained_file_answers(state: CacheState, loaded: Option<Seq<u8>>, ip: u32)
    requires
        state.policy == CachePolicy::Full,
        state.full is Some,
    ensures
        state.after(loaded) == state,
        state.resolve(loaded, ip) == lookup(state.full.unwrap(), ip),
{
}

/// Under `Full` the file is read once however many queries follow, and not
/// at all once it is retained; under the other policies it is read for
/// every query.
pub proof fn lemma_file_reads(state: CacheState, file: Seq<u8>, queries: nat)
    ensures
        state.policy == CachePolicy::Full ==> file_reads(state, file, queries) == (if queries > 0
            && state.needs_file() {
            1nat
        } else {
            0nat
        }),
        state.policy != CachePolicy::Full ==> file_reads(state, file, queries) == queries,
    decreases queries,
{
    if queries > 0 {
        if state.needs_file() {
            lemma_file_reads(state.after(Some(file)), file, (queries - 1) as nat);
        } else {
            lemma_file_reads(state.after(None), file, (queries - 1) as nat);
        }
    }
}

/// The bytes that were handed to a query, as a sequence.
pub open spec fn bytes_of(loaded: Option<Vec<u8>>) -> Option<Seq<u8>> {
    match loaded {
        Some(file) => Some(file@),
        None => None,
    }
}

/// A cache policy together with what has been retained under it.
pub struct Searcher {
    policy: CachePolicy,
    full: OnceCell<Vec<u8>>,
    vector_index: OnceCell<Vec<u8>>,
}

impl View for Searcher {
    type V = CacheState;

    closed spec fn view(&self) -> CacheState {
        CacheState {
            policy: self.policy,
            full: cell_bytes(self.full),
            vector_index: cell_bytes(self.vector_index),
        }
    }
}

impl Searcher {
    /// A searcher under `policy` that has retained nothing yet.
    pub fn new(policy: CachePolicy) -> (searcher: Searcher)
        ensures
            searcher@ == CacheState::empty(policy),
            searcher@.wf(),
    {
        Searcher { policy, full: cell_new(), vector_index: cell_new() }
    }

    /// The policy that the searcher was made with.
    pub fn policy(&self) -> (policy: CachePolicy)
        ensures
            policy == self@.policy,
    {
        self.policy
    }

    /// The file that a `Full` searcher has retained, if it has.
    pub fn get_full_cache(&self) -> (r: Option<&Vec<u8>>)
        ensures
            match r {
                Some(file) => !self@.needs_file() && self@.full == Some(file@),
                None => self@.needs_file(),
            },
    {
        match self.policy {
            CachePolicy::Full => cell_get(&self.full),
            _ => None,
        }
    }

    /// Whether the next query has to be handed the bytes of the file.
    pub fn needs_file(&self) -> (needed: bool)
        ensures
            needed == self@.needs_file(),
    {
        self.get_full_cache().is_none()
    }

    /// Answers a query for the address that `ip` stands for. `loaded` holds
    /// the bytes of the file where the caller has read it for this query.
    /// An address that cannot be read is an `InvalidIpFormat` and leaves the
    /// searcher as it was.
    pub fn search<T: ToUIntIP>(&mut self, loaded: Option<Vec<u8>>, ip: T) -> (r: Result<
        String,
        SearchError,
    >)
        ensures
            match ip.ip_value() {
                Some(ip) => final(self)@ == old(self)@.after(bytes_of(loaded)) && text_of(r) == old(
                    self,
                )@.resolve(bytes_of(loaded), ip),
                None => final(self)@ == old(self)@ && text_of(r) == rejected(
                    SearchError::InvalidIpFormat,
                ),
            },
            old(self)@.wf() ==> final(self)@.wf(),
    {
        proof {
            if old(self)@.wf() {
                lemma_after_keeps_wf(old(self)@, bytes_of(loaded));
            }
        }
        let ip: u32 = match ip.to_u32_ip() {
            Ok(ip) => ip,
            Err(e) => {
                return Err(e);
            },
        };
        match self.policy {
            CachePolicy::Never => match loaded {
                Some(file) => search_by_ip(file.as_slice(), ip),
                None => Err(SearchError::IoError),
            },
            CachePolicy::VecIndex => match loaded {
                Some(file) => {
                    if cell_get(&self.vector_index).is_none() {
                        match get_vector_index_cache(file.as_slice()) {
                            Ok(index) => {
                                let _ = cell_set(&mut self.vector_index, slice_to_vec(index));
                            },
                            Err(e) => {
                                return Err(e);
                            },
                        }
                    }
                    match cell_get(&self.vector_index) {
                        Some(index) => search_with_vector_index(
                            index.as_slice(),
                            file.as_slice(),
                            ip,
                        ),
                        None => Err(SearchError::DataError),
                    }
                },
                None => Err(SearchError::IoError),
            },
            CachePolicy::Full => {
                match loaded {
                    Some(file) => {
                        let _ = cell_set(&mut self.full, file);
                    },
                    None => {},
                }
                match cell_get(&self.full) {
                    Some(file) => search_by_ip(file.as_slice(), ip),
                    None => Err(SearchError::IoError),
                }
            },
        }
    }
}

} // verus!
