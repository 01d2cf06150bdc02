//! Remote repositories: the client protocol and its errors.

use crate::hash::BlockHash;
use crate::metadata::{DatasetId, MetadataBlock};
use crate::resource::url_scheme_of;
use vstd::prelude::*;

verus! {

/// A remote repository, by its URL.
#[derive(Clone, Debug)]
pub struct Repository {
    pub url: String,
}

/// A failure talking to a remote repository.
#[derive(Clone, Debug)]
pub enum RepositoryError {
    DoesNotExist,
    NotAllowed,
    /// Local and remote chains have diverged.
    Diverged { local_head: BlockHash, remote_head: BlockHash },
    UpdatedConcurrently,
    /// The repository holds data that does not validate.
    Corrupted { message: String, source: Option<String> },
    IOError { message: String },
    CredentialsError { source: String },
    ProtocolError { source: String },
}

impl RepositoryError {
    pub fn credentials(e: String) -> (r: RepositoryError)
        ensures
            r matches RepositoryError::CredentialsError { source } && source@ == e@,
    {
        RepositoryError::CredentialsError { source: e }
    }

    pub fn protocol(e: String) -> (r: RepositoryError)
        ensures
            r matches RepositoryError::ProtocolError { source } && source@ == e@,
    {
        RepositoryError::ProtocolError { source: e }
    }

    pub fn corrupted(message: String) -> (r: RepositoryError)
        ensures
            r matches RepositoryError::Corrupted { message: m, source } && m@ == message@ && source is None,
    {
        RepositoryError::Corrupted { message, source: None }
    }

    pub fn corrupted_from(message: String, source: String) -> (r: RepositoryError)
        ensures
            r matches RepositoryError::Corrupted { message: m, source: Some(s) } && m@ == message@ && s@
                == source@,
    {
        RepositoryError::Corrupted { message, source: Some(source) }
    }
}

impl Repository {
    /// A repository at `url`, when it is a URL.
    pub fn from_url(url: &str) -> (r: Option<Repository>)
        ensures
            r is Some <==> url_scheme_of(url@) is Some,
            r matches Some(repo) ==> repo.url@ == url@,
    {
        if crate::resource::is_url(url) {
            Some(Repository { url: url.to_owned() })
        } else {
            None
        }
    }
}

/// What a read from a repository fetched: block bytes and the data and
/// checkpoint files staged locally.
pub struct RepositoryReadResult {
    pub blocks: Vec<Vec<u8>>,
    pub data_files: Vec<String>,
    pub checkpoint_dir: String,
}

/// The datasets a search found.
pub struct RepositorySearchResult {
    pub datasets: Vec<DatasetId>,
}

/// The transport to one remote repository.
pub trait RepositoryClient {
    fn read_ref(&self, dataset_id: DatasetId) -> Result<Option<BlockHash>, RepositoryError>;

    fn write(
        &mut self,
        dataset_id: DatasetId,
        expected_head: Option<BlockHash>,
        new_head: BlockHash,
        blocks: Vec<MetadataBlock>,
        data_files: Vec<String>,
        checkpoint_dir: &str,
    ) -> Result<(), RepositoryError>;

    fn read(
        &self,
        dataset_id: DatasetId,
        expected_head: BlockHash,
        last_seen_block: Option<BlockHash>,
        tmp_dir: &str,
    ) -> Result<RepositoryReadResult, RepositoryError>;

    /// Deletes a dataset from the repository; some repositories refuse.
    fn delete(&self, dataset_id: DatasetId) -> Result<(), RepositoryError>;

    fn search(&self, query: Option<&str>) -> Result<RepositorySearchResult, RepositoryError>;
}

} // verus!
