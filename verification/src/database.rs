//! The records of the folder store and the rules by which they change.
//!
//! The store keeps one record per folder path. A view or an embedding either
//! creates the record of a path or updates it in place; an update never
//! replaces stored data by an absent value.

use crate::text::append_decimal;
use crate::text::decimal_text;
use vstd::prelude::*;
use vstd::string::*;

verus! {

/// What the store keeps for one folder.
#[derive(Debug)]
pub struct FolderRecord {
    pub path: String,
    pub thumbnail_blob: Option<Vec<u8>>,
    pub thumbnail_hash: Option<String>,
    /// Seconds since the epoch of the last view; `None` if never viewed.
    pub last_viewed_at: Option<i64>,
    pub view_count: i64,
    pub created_at: i64,
    pub image_embedding: Option<Vec<u8>>,
    pub path_embedding: Option<Vec<u8>>,
    pub embedding_version: Option<i32>,
    /// The folder's own modification time when it was last embedded.
    pub folder_modified_at: Option<i64>,
}

/// The mathematical value of a [`FolderRecord`].
pub struct FolderRecordView {
    pub path: Seq<char>,
    pub thumbnail_blob: Option<Seq<u8>>,
    pub thumbnail_hash: Option<Seq<char>>,
    pub last_viewed_at: Option<i64>,
    pub view_count: i64,
    pub created_at: i64,
    pub image_embedding: Option<Seq<u8>>,
    pub path_embedding: Option<Seq<u8>>,
    pub embedding_version: Option<i32>,
    pub folder_modified_at: Option<i64>,
}

/// The value of optional bytes.
pub open spec fn bytes_view(bytes: Option<Vec<u8>>) -> Option<Seq<u8>> {
    match bytes {
        Some(b) => Some(b@),
        None => None,
    }
}

/// The value of an optional text.
pub open spec fn hash_view(text: Option<String>) -> Option<Seq<char>> {
    match text {
        Some(t) => Some(t@),
        None => None,
    }
}

/// The value of an optional record.
pub open spec fn record_view(record: Option<FolderRecord>) -> Option<FolderRecordView> {
    match record {
        Some(r) => Some(r@),
        None => None,
    }
}

impl View for FolderRecord {
    type V = FolderRecordView;

    open spec fn view(&self) -> FolderRecordView {
        FolderRecordView {
            path: self.path@,
            thumbnail_blob: bytes_view(self.thumbnail_blob),
            thumbnail_hash: hash_view(self.thumbnail_hash),
            last_viewed_at: self.last_viewed_at,
            view_count: self.view_count,
            created_at: self.created_at,
            image_embedding: bytes_view(self.image_embedding),
            path_embedding: bytes_view(self.path_embedding),
            embedding_version: self.embedding_version,
            folder_modified_at: self.folder_modified_at,
        }
    }
}

/// The new value where there is one, else the stored one.
pub open spec fn coalesce<T>(new: Option<T>, stored: Option<T>) -> Option<T> {
    match new {
        Some(_) => new,
        None => stored,
    }
}

/// The record of `path` after a view at time `now`: a first view creates it
/// with one view counted; a later one counts one more, renews the time of the
/// last view, and takes the thumbnail and its hash only where new ones come.
pub open spec fn viewed(
    stored: Option<FolderRecordView>,
    path: Seq<char>,
    blob: Option<Seq<u8>>,
    hash: Option<Seq<char>>,
    now: i64,
) -> FolderRecordView {
    match stored {
        None => FolderRecordView {
            path,
            thumbnail_blob: blob,
            thumbnail_hash: hash,
            last_viewed_at: Some(now),
            view_count: 1,
            created_at: now,
            image_embedding: None,
            path_embedding: None,
            embedding_version: Some(0),
            folder_modified_at: None,
        },
        Some(r) => FolderRecordView {
            path,
            thumbnail_blob: coalesce(blob, r.thumbnail_blob),
            thumbnail_hash: coalesce(hash, r.thumbnail_hash),
            last_viewed_at: Some(now),
            view_count: (r.view_count + 1) as i64,
            ..r
        },
    }
}

/// The record of `path` after its thumbnail was replaced at time `now`; the
/// view history stays as it is, and a new record has none.
pub open spec fn with_thumbnail(
    stored: Option<FolderRecordView>,
    path: Seq<char>,
    blob: Seq<u8>,
    hash: Seq<char>,
    now: i64,
) -> FolderRecordView {
    match stored {
        None => FolderRecordView {
            path,
            thumbnail_blob: Some(blob),
            thumbnail_hash: Some(hash),
            last_viewed_at: None,
            view_count: 0,
            created_at: now,
            image_embedding: None,
            path_embedding: None,
            embedding_version: Some(0),
            folder_modified_at: None,
        },
        Some(r) => FolderRecordView {
            path,
            thumbnail_blob: Some(blob),
            thumbnail_hash: Some(hash),
            ..r
        },
    }
}

/// The record of `path` after it was embedded at time `now`: the embedding,
/// its version and the folder's modification time are stored, the thumbnail
/// only where a new one comes, and the view history stays as it is.
pub open spec fn embedded(
    stored: Option<FolderRecordView>,
    path: Seq<char>,
    blob: Option<Seq<u8>>,
    image_embedding: Seq<u8>,
    version: i32,
    folder_modified_at: i64,
    now: i64,
) -> FolderRecordView {
    match stored {
        None => FolderRecordView {
            path,
            thumbnail_blob: blob,
            thumbnail_hash: None,
            last_viewed_at: None,
            view_count: 0,
            created_at: now,
            image_embedding: Some(image_embedding),
            path_embedding: None,
            embedding_version: Some(version),
            folder_modified_at: Some(folder_modified_at),
        },
        Some(r) => FolderRecordView {
            path,
            thumbnail_blob: coalesce(blob, r.thumbnail_blob),
            image_embedding: Some(image_embedding),
            embedding_version: Some(version),
            folder_modified_at: Some(folder_modified_at),
            ..r
        },
    }
}

/// Whether a record lacks an embedding of the version `current_version`
/// though it has a thumbnail to compute one from.
pub open spec fn lacks_embedding(record: FolderRecordView, current_version: i32) -> bool {
    record.thumbnail_blob.is_some() && (record.image_embedding.is_none() || match record.embedding_version {
        Some(v) => v < current_version,
        None => false,
    })
}

impl FolderRecord {
    /// Computes [`viewed`].
    pub fn record_folder_view(
        stored: Option<FolderRecord>,
        folder_path: &str,
        thumbnail_blob: Option<Vec<u8>>,
        thumbnail_hash: Option<String>,
        now: i64,
    ) -> (record: FolderRecord)
        requires
            stored matches Some(r) ==> r.view_count < i64::MAX,
        ensures
            record@ == viewed(
                record_view(stored),
                folder_path@,
                bytes_view(thumbnail_blob),
                hash_view(thumbnail_hash),
                now,
            ),
    {
        match stored {
            None => FolderRecord {
                path: folder_path.to_owned(),
                thumbnail_blob,
                thumbnail_hash,
                last_viewed_at: Some(now),
                view_count: 1,
                created_at: now,
                image_embedding: None,
                path_embedding: None,
                embedding_version: Some(0),
                folder_modified_at: None,
            },
            Some(r) => FolderRecord {
                path: folder_path.to_owned(),
                thumbnail_blob: match thumbnail_blob {
                    Some(b) => Some(b),
                    None => r.thumbnail_blob,
                },
                thumbnail_hash: match thumbnail_hash {
                    Some(h) => Some(h),
                    None => r.thumbnail_hash,
                },
                last_viewed_at: Some(now),
                view_count: r.view_count + 1,
                created_at: r.created_at,
                image_embedding: r.image_embedding,
                path_embedding: r.path_embedding,
                embedding_version: r.embedding_version,
                folder_modified_at: r.folder_modified_at,
            },
        }
    }

    /// Computes [`with_thumbnail`].
    pub fn update_thumbnail(
        stored: Option<FolderRecord>,
        folder_path: &str,
        thumbnail_blob: Vec<u8>,
        thumbnail_hash: String,
        now: i64,
    ) -> (record: FolderRecord)
        ensures
            record@ == with_thumbnail(
                record_view(stored),
                folder_path@,
                thumbnail_blob@,
                thumbnail_hash@,
                now,
            ),
    {
        match stored {
            None => FolderRecord {
                path: folder_path.to_owned(),
                thumbnail_blob: Some(thumbnail_blob),
                thumbnail_hash: Some(thumbnail_hash),
                last_viewed_at: None,
                view_count: 0,
                created_at: now,
                image_embedding: None,
                path_embedding: None,
                embedding_version: Some(0),
                folder_modified_at: None,
            },
            Some(r) => FolderRecord {
                path: folder_path.to_owned(),
                thumbnail_blob: Some(thumbnail_blob),
                thumbnail_hash: Some(thumbnail_hash),
                last_viewed_at: r.last_viewed_at,
                view_count: r.view_count,
                created_at: r.created_at,
                image_embedding: r.image_embedding,
                path_embedding: r.path_embedding,
                embedding_version: r.embedding_version,
                folder_modified_at: r.folder_modified_at,
            },
        }
    }

    /// Stores both embeddings and their version in a record that exists;
    /// where there is none, none is created.
    pub fn update_embeddings(
        stored: Option<FolderRecord>,
        image_embedding: Vec<u8>,
        path_embedding: Vec<u8>,
        version: i32,
    ) -> (record: Option<FolderRecord>)
        ensures
            record_view(record) == match record_view(stored) {
                None => None,
                Some(r) => Some(
                    FolderRecordView {
                        image_embedding: Some(image_embedding@),
                        path_embedding: Some(path_embedding@),
                        embedding_version: Some(version),
                        ..r
                    },
                ),
            },
    {
        match stored {
            None => None,
            Some(r) => Some(
                FolderRecord {
                    path: r.path,
                    thumbnail_blob: r.thumbnail_blob,
                    thumbnail_hash: r.thumbnail_hash,
                    last_viewed_at: r.last_viewed_at,
                    view_count: r.view_count,
                    created_at: r.created_at,
                    image_embedding: Some(image_embedding),
                    path_embedding: Some(path_embedding),
                    embedding_version: Some(version),
                    folder_modified_at: r.folder_modified_at,
                },
            ),
        }
    }

    /// Computes [`embedded`].
    pub fn upsert_folder_embedding(
        stored: Option<FolderRecord>,
        folder_path: &str,
        thumbnail_blob: Option<Vec<u8>>,
        image_embedding: Vec<u8>,
        version: i32,
        folder_modified_at: i64,
        now: i64,
    ) -> (record: FolderRecord)
        ensures
            record@ == embedded(
                record_view(stored),
                folder_path@,
                bytes_view(thumbnail_blob),
                image_embedding@,
                version,
                folder_modified_at,
                now,
            ),
            record_view(stored) matches Some(r) ==> record@.view_count == r.view_count
                && record@.last_viewed_at == r.last_viewed_at,
    {
        match stored {
            None => FolderRecord {
                path: folder_path.to_owned(),
                thumbnail_blob,
                thumbnail_hash: None,
                last_viewed_at: None,
                view_count: 0,
                created_at: now,
                image_embedding: Some(image_embedding),
                path_embedding: None,
                embedding_version: Some(version),
                folder_modified_at: Some(folder_modified_at),
            },
            Some(r) => FolderRecord {
                path: folder_path.to_owned(),
                thumbnail_blob: match thumbnail_blob {
                    Some(b) => Some(b),
                    None => r.thumbnail_blob,
                },
                thumbnail_hash: r.thumbnail_hash,
                last_viewed_at: r.last_viewed_at,
                view_count: r.view_count,
                created_at: r.created_at,
                image_embedding: Some(image_embedding),
                path_embedding: r.path_embedding,
                embedding_version: Some(version),
                folder_modified_at: Some(folder_modified_at),
            },
        }
    }

    /// Decides [`lacks_embedding`].
    pub fn needs_embedding(&self, current_version: i32) -> (needs: bool)
        ensures
            needs == lacks_embedding(self@, current_version),
    {
        self.thumbnail_blob.is_some() && (self.image_embedding.is_none() || match self.embedding_version {
            Some(v) => v < current_version,
            None => false,
        })
    }
}

/// The placeholders `?1, ?2, ...` of a query with `n` parameters.
pub open spec fn placeholders(n: nat) -> Seq<char>
    decreases n,
{
    if n == 0 {
        Seq::empty()
    } else if n == 1 {
        seq!['?'] + decimal_text(1)
    } else {
        placeholders((n - 1) as nat) + seq![',', ' ', '?'] + decimal_text(n)
    }
}

/// Computes [`placeholders`].
pub fn placeholder_list(n: usize) -> (list: String)
    ensures
        list@ == placeholders(n as nat),
{
    let mut list = String::new();
    let mut i: usize = 0;
    proof {
        reveal_strlit("?");
        reveal_strlit(", ?");
    }
    while i < n
        invariant
            i <= n,
            list@ == placeholders(i as nat),
            "?"@ == seq!['?'],
            ", ?"@ == seq![',', ' ', '?'],
        decreases n - i,
    {
        if i == 0 {
            list.append("?");
        } else {
            list.append(", ?");
        }
        append_decimal(&mut list, (i + 1) as u64);
        i = i + 1;
        assert(list@ =~= placeholders(i as nat));
    }
    list
}

/// The text of a batch query over `n` paths: `head`, the placeholders of the
/// paths, `tail`. A batch of no paths has no query; its result is empty.
pub fn batch_query(head: &str, n: usize, tail: &str) -> (query: Option<String>)
    ensures
        n == 0 ==> query.is_none(),
        n > 0 ==> query.is_some() && query.unwrap()@ == head@ + placeholders(n as nat) + tail@,
{
    if n == 0 {
        None
    } else {
        let mut query = head.to_owned();
        let list = placeholder_list(n);
        query.append(list.as_str());
        query.append(tail);
        Some(query)
    }
}

} // verus!
