//! The metadata/version engine's relational model.
//!
//! The gateway keeps object metadata in five relations: buckets, files
//! (one per live `(bucket, key)`), an append-only version history, content
//! blobs (`FileData`) and their backend locations (`FileDataPart`). The
//! per-chunk manifest rows of a part are modelled nested in their owning
//! part row. [`MetaStore::put_commit`] is the write transaction: it either
//! applies completely — new version appended, republished as current — or
//! changes nothing, which is exactly the atomicity the database
//! transaction provides around it.

use vstd::prelude::*;
use crate::chunker::{ranges_tile, ChunkRecord, UploadResult};
use crate::error::S3Error;

verus! {

pub struct BucketRow {
    pub id: u64,
    pub name: String,
    pub created_at: i64,
}

pub struct FileRow {
    pub id: u64,
    pub bucket_id: u64,
    pub key: String,
    pub current_version: u64,
    pub current_version_is_delete_marker: bool,
}

pub struct FileVersionRow {
    pub id: u64,
    pub file_id: u64,
    pub file_data_id: Option<u64>,
}

pub struct FileDataRow {
    pub id: u64,
    pub size: u64,
    pub md5: Vec<u8>,
}

pub struct FileDataPartRow {
    pub id: u64,
    pub file_data_id: u64,
    pub backend_key: String,
    pub start: u64,
    pub end: u64,
    pub chunks: Vec<ChunkRecord>,
}

/// What one committed write transaction does to the store: for a
/// non-empty object the blob row, its single location row spanning
/// `[0, size)` and the chunk manifest are recorded; a fresh version row is
/// appended to the history (never replacing one); and the file row for
/// `(bucket, key)` — created on first write, locked and updated afterwards
/// — is republished to point at the new version. Everything else is
/// untouched.
pub open spec fn put_commit_post(
    pre: MetaStore,
    post: MetaStore,
    bucket: String,
    key: String,
    upload: Option<UploadResult>,
    vid: u64,
) -> bool {
    let bid = pre.bucket_id_of(bucket@);
    let existed = pre.has_file(bid, key@);
    let base: int = if upload is Some {
        pre.next_id + 2
    } else {
        pre.next_id as int
    };
    let fid: int = if existed {
        pre.file_at(bid, key@).id as int
    } else {
        base
    };
    let did_opt: Option<u64> = if upload is Some {
        Some(pre.next_id)
    } else {
        None
    };
    &&& pre.has_bucket(bucket@)
    &&& vid == if existed {
        base
    } else {
        base + 1
    }
    &&& post.next_id == vid + 1
    &&& post.buckets == pre.buckets
    &&& match upload {
        Some(u) => post.file_data@ == pre.file_data@.push(
            FileDataRow { id: pre.next_id, size: u.size, md5: u.md5 },
        ) && post.file_data_parts@ == pre.file_data_parts@.push(
            FileDataPartRow {
                id: (pre.next_id + 1) as u64,
                file_data_id: pre.next_id,
                backend_key: u.backend_ref,
                start: 0,
                end: u.size,
                chunks: u.chunks,
            },
        ),
        None => post.file_data == pre.file_data && post.file_data_parts == pre.file_data_parts,
    }
    &&& post.file_versions@ == pre.file_versions@.push(
        FileVersionRow { id: vid, file_id: fid as u64, file_data_id: did_opt },
    )
    &&& if existed {
        post.files@ == pre.files@.update(
            pre.file_idx(bid, key@),
            FileRow {
                id: pre.file_at(bid, key@).id,
                bucket_id: pre.file_at(bid, key@).bucket_id,
                key: pre.file_at(bid, key@).key,
                current_version: vid,
                current_version_is_delete_marker: false,
            },
        )
    } else {
        post.files@ == pre.files@.push(
            FileRow {
                id: fid as u64,
                bucket_id: bid,
                key: key,
                current_version: vid,
                current_version_is_delete_marker: false,
            },
        )
    }
}

pub struct MetaStore {
    pub buckets: Vec<BucketRow>,
    pub files: Vec<FileRow>,
    pub file_versions: Vec<FileVersionRow>,
    pub file_data: Vec<FileDataRow>,
    pub file_data_parts: Vec<FileDataPartRow>,
    pub next_id: u64,
}

impl MetaStore {
    pub open spec fn has_bucket(self, name: Seq<char>) -> bool {
        exists|i: int|
            0 <= i < self.buckets@.len() && (#[trigger] self.buckets@[i]).name@ == name
    }

    pub open spec fn bucket_idx(self, name: Seq<char>) -> int {
        choose|i: int| 0 <= i < self.buckets@.len() && (#[trigger] self.buckets@[i]).name@ == name
    }

    pub open spec fn bucket_id_of(self, name: Seq<char>) -> u64 {
        self.buckets@[self.bucket_idx(name)].id
    }

    pub open spec fn has_bucket_id(self, id: u64) -> bool {
        exists|i: int| 0 <= i < self.buckets@.len() && (#[trigger] self.buckets@[i]).id == id
    }

    pub open spec fn has_file(self, bucket_id: u64, key: Seq<char>) -> bool {
        exists|i: int|
            0 <= i < self.files@.len() && (#[trigger] self.files@[i]).bucket_id == bucket_id
                && self.files@[i].key@ == key
    }

    pub open spec fn file_idx(self, bucket_id: u64, key: Seq<char>) -> int {
        choose|i: int|
            0 <= i < self.files@.len() && (#[trigger] self.files@[i]).bucket_id == bucket_id
                && self.files@[i].key@ == key
    }

    pub open spec fn file_at(self, bucket_id: u64, key: Seq<char>) -> FileRow {
        self.files@[self.file_idx(bucket_id, key)]
    }

    pub open spec fn has_file_id(self, id: u64) -> bool {
        exists|i: int| 0 <= i < self.files@.len() && (#[trigger] self.files@[i]).id == id
    }

    /// A version row `vid` belonging to file `fid` exists.
    pub open spec fn has_version_row(self, vid: u64, fid: u64) -> bool {
        exists|i: int|
            0 <= i < self.file_versions@.len() && (#[trigger] self.file_versions@[i]).id == vid
                && self.file_versions@[i].file_id == fid
    }

    pub open spec fn has_version(self, vid: u64) -> bool {
        exists|i: int|
            0 <= i < self.file_versions@.len() && (#[trigger] self.file_versions@[i]).id == vid
    }

    pub open spec fn version_idx(self, vid: u64) -> int {
        choose|i: int|
            0 <= i < self.file_versions@.len() && (#[trigger] self.file_versions@[i]).id == vid
    }

    pub open spec fn version_at(self, vid: u64) -> FileVersionRow {
        self.file_versions@[self.version_idx(vid)]
    }

    pub open spec fn has_data(self, did: u64) -> bool {
        exists|i: int| 0 <= i < self.file_data@.len() && (#[trigger] self.file_data@[i]).id == did
    }

    pub open spec fn data_idx(self, did: u64) -> int {
        choose|i: int| 0 <= i < self.file_data@.len() && (#[trigger] self.file_data@[i]).id == did
    }

    pub open spec fn data_at(self, did: u64) -> FileDataRow {
        self.file_data@[self.data_idx(did)]
    }

    pub open spec fn has_part_for(self, did: u64) -> bool {
        exists|i: int|
            0 <= i < self.file_data_parts@.len() && (#[trigger] self.file_data_parts@[i]).file_data_id
                == did
    }

    pub open spec fn part_idx_for(self, did: u64) -> int {
        choose|i: int|
            0 <= i < self.file_data_parts@.len() && (#[trigger] self.file_data_parts@[i]).file_data_id
                == did
    }

    pub open spec fn part_for(self, did: u64) -> FileDataPartRow {
        self.file_data_parts@[self.part_idx_for(did)]
    }

    /// Bucket names and ids are unique; ids were drawn from the id
    /// counter.
    pub open spec fn buckets_ok(self) -> bool {
        &&& forall|i: int, j: int|
            #![trigger self.buckets@[i], self.buckets@[j]]
            0 <= i < j < self.buckets@.len() ==> self.buckets@[i].id != self.buckets@[j].id
                && self.buckets@[i].name@ != self.buckets@[j].name@
        &&& forall|i: int|
            0 <= i < self.buckets@.len() ==> (#[trigger] self.buckets@[i]).id < self.next_id
    }

    /// `(bucket_id, key)` identifies at most one live file; every file
    /// belongs to an existing bucket and its current version resolves to
    /// a version row of that very file.
    pub open spec fn files_ok(self) -> bool {
        &&& forall|i: int, j: int|
            #![trigger self.files@[i], self.files@[j]]
            0 <= i < j < self.files@.len() ==> self.files@[i].id != self.files@[j].id && !(
            self.files@[i].bucket_id == self.files@[j].bucket_id && self.files@[i].key@
                == self.files@[j].key@)
        &&& forall|i: int|
            0 <= i < self.files@.len() ==> (#[trigger] self.files@[i]).id < self.next_id
        &&& forall|i: int|
            0 <= i < self.files@.len() ==> self.has_bucket_id(
                (#[trigger] self.files@[i]).bucket_id,
            )
        &&& forall|i: int|
            0 <= i < self.files@.len() ==> self.has_version_row(
                (#[trigger] self.files@[i]).current_version,
                self.files@[i].id,
            )
    }

    /// History is append-only with monotonically increasing ids (id order
    /// is time order); every version belongs to an existing file and
    /// points at an existing blob, or at none for a zero-byte object or
    /// delete marker.
    pub open spec fn versions_ok(self) -> bool {
        &&& forall|i: int, j: int|
            #![trigger self.file_versions@[i], self.file_versions@[j]]
            0 <= i < j < self.file_versions@.len() ==> self.file_versions@[i].id
                < self.file_versions@[j].id
        &&& forall|i: int|
            0 <= i < self.file_versions@.len() ==> (#[trigger] self.file_versions@[i]).id
                < self.next_id
        &&& forall|i: int|
            0 <= i < self.file_versions@.len() ==> self.has_file_id(
                (#[trigger] self.file_versions@[i]).file_id,
            )
        &&& forall|i: int|
            0 <= i < self.file_versions@.len() ==> match (#[trigger] self.file_versions@[i]).file_data_id {
                Some(did) => self.has_data(did),
                None => true,
            }
    }

    /// Blob ids are unique and every blob has its backend location row.
    pub open spec fn data_ok(self) -> bool {
        &&& forall|i: int, j: int|
            #![trigger self.file_data@[i], self.file_data@[j]]
            0 <= i < j < self.file_data@.len() ==> self.file_data@[i].id != self.file_data@[j].id
        &&& forall|i: int|
            0 <= i < self.file_data@.len() ==> (#[trigger] self.file_data@[i]).id < self.next_id
        &&& forall|i: int|
            0 <= i < self.file_data@.len() ==> self.has_part_for(
                (#[trigger] self.file_data@[i]).id,
            )
    }

    /// One location row per blob, spanning exactly `[0, size)`, with its
    /// chunk manifest tiling that span — no gaps, no overlaps.
    pub open spec fn parts_ok(self) -> bool {
        &&& forall|i: int, j: int|
            #![trigger self.file_data_parts@[i], self.file_data_parts@[j]]
            0 <= i < j < self.file_data_parts@.len() ==> self.file_data_parts@[i].id
                != self.file_data_parts@[j].id && self.file_data_parts@[i].file_data_id
                != self.file_data_parts@[j].file_data_id
        &&& forall|i: int|
            0 <= i < self.file_data_parts@.len() ==> (#[trigger] self.file_data_parts@[i]).id
                < self.next_id
        &&& forall|i: int|
            0 <= i < self.file_data_parts@.len() ==> {
                let p = #[trigger] self.file_data_parts@[i];
                &&& self.has_data(p.file_data_id)
                &&& p.start == 0
                &&& p.end == self.data_at(p.file_data_id).size
                &&& ranges_tile(p.chunks@, p.end - p.start)
            }
    }

    pub open spec fn wf(self) -> bool {
        &&& self.buckets_ok()
        &&& self.files_ok()
        &&& self.versions_ok()
        &&& self.data_ok()
        &&& self.parts_ok()
    }

    /// Everything but the bucket table kept, and every file still naming
    /// an existing bucket: the invariant carries over.
    proof fn lemma_wf_buckets_changed(pre: MetaStore, post: MetaStore)
        requires
            pre.wf(),
            post.buckets_ok(),
            post.files == pre.files,
            post.file_versions == pre.file_versions,
            post.file_data == pre.file_data,
            post.file_data_parts == pre.file_data_parts,
            post.next_id >= pre.next_id,
            forall|i: int|
                0 <= i < post.files@.len() ==> post.has_bucket_id(
                    (#[trigger] post.files@[i]).bucket_id,
                ),
        ensures
            post.wf(),
    {
        assert forall|i: int| 0 <= i < post.files@.len() implies post.has_version_row(
            (#[trigger] post.files@[i]).current_version,
            post.files@[i].id,
        ) by {
            assert(pre.has_version_row(pre.files@[i].current_version, pre.files@[i].id));
            let w = choose|w: int|
                0 <= w < pre.file_versions@.len() && (#[trigger] pre.file_versions@[w]).id
                    == pre.files@[i].current_version && pre.file_versions@[w].file_id
                    == pre.files@[i].id;
            assert(post.file_versions@[w] == pre.file_versions@[w]);
        }
        assert forall|i: int| 0 <= i < post.file_versions@.len() implies post.has_file_id(
            (#[trigger] post.file_versions@[i]).file_id,
        ) by {
            assert(pre.has_file_id(pre.file_versions@[i].file_id));
            let w = choose|w: int|
                0 <= w < pre.files@.len() && (#[trigger] pre.files@[w]).id
                    == pre.file_versions@[i].file_id;
            assert(post.files@[w] == pre.files@[w]);
        }
        assert forall|i: int|
            0 <= i < post.file_versions@.len() implies match (#[trigger] post.file_versions@[i]).file_data_id {
            Some(did) => post.has_data(did),
            None => true,
        } by {
            match pre.file_versions@[i].file_data_id {
                Some(did) => {
                    assert(pre.has_data(did));
                    let w = choose|w: int|
                        0 <= w < pre.file_data@.len() && (#[trigger] pre.file_data@[w]).id == did;
                    assert(post.file_data@[w] == pre.file_data@[w]);
                },
                None => {},
            }
        }
        assert forall|i: int| 0 <= i < post.file_data@.len() implies post.has_part_for(
            (#[trigger] post.file_data@[i]).id,
        ) by {
            assert(pre.has_part_for(pre.file_data@[i].id));
            let w = choose|w: int|
                0 <= w < pre.file_data_parts@.len() && (#[trigger] pre.file_data_parts@[w]).file_data_id
                    == pre.file_data@[i].id;
            assert(post.file_data_parts@[w] == pre.file_data_parts@[w]);
        }
        assert forall|i: int|
            0 <= i < post.file_data_parts@.len() implies {
            let p = #[trigger] post.file_data_parts@[i];
            &&& post.has_data(p.file_data_id)
            &&& p.start == 0
            &&& p.end == post.data_at(p.file_data_id).size
            &&& ranges_tile(p.chunks@, p.end - p.start)
        } by {
            let p = post.file_data_parts@[i];
            assert(pre.file_data_parts@[i] == p);
            assert(pre.has_data(p.file_data_id));
            let pi = pre.data_idx(p.file_data_id);
            assert(0 <= pi < pre.file_data@.len() && pre.file_data@[pi].id == p.file_data_id);
            assert(post.file_data@[pi] == pre.file_data@[pi]);
            assert(post.has_data(p.file_data_id));
            let ci = post.data_idx(p.file_data_id);
            assert(0 <= ci < post.file_data@.len() && post.file_data@[ci].id == p.file_data_id);
            assert(ci == pi) by {
                if ci < pi {
                    assert(pre.file_data@[ci].id != pre.file_data@[pi].id);
                } else if pi < ci {
                    assert(pre.file_data@[pi].id != pre.file_data@[ci].id);
                }
            }
            assert(post.data_at(p.file_data_id) == pre.data_at(p.file_data_id));
        }
    }

    /// A committed write leaves the store well-formed again.
    proof fn lemma_wf_after_commit(
        pre: MetaStore,
        post: MetaStore,
        bucket: String,
        key: String,
        upload: Option<UploadResult>,
        vid: u64,
    )
        requires
            pre.wf(),
            pre.next_id + 4 <= u64::MAX,
            upload matches Some(u) ==> u.wf(),
            put_commit_post(pre, post, bucket, key, upload, vid),
        ensures
            post.wf(),
    {
        let bid = pre.bucket_id_of(bucket@);
        let existed = pre.has_file(bid, key@);
        let nid = pre.next_id as int;
        let bi = pre.bucket_idx(bucket@);
        assert(0 <= bi < pre.buckets@.len() && pre.buckets@[bi].name@ == bucket@);
        let vlast = post.file_versions@.len() - 1;
        // buckets: unchanged rows under a larger id counter
        assert forall|x: int| 0 <= x < post.buckets@.len() implies (#[trigger] post.buckets@[x]).id
            < post.next_id by {
            assert(post.buckets@[x] == pre.buckets@[x]);
        }
        // files
        if existed {
            let fi = pre.file_idx(bid, key@);
            assert(0 <= fi < pre.files@.len());
            assert forall|x: int, y: int|
                #![trigger post.files@[x], post.files@[y]]
                0 <= x < y < post.files@.len() implies post.files@[x].id != post.files@[y].id && !(
                post.files@[x].bucket_id == post.files@[y].bucket_id && post.files@[x].key@
                    == post.files@[y].key@) by {
                assert(post.files@[x].id == pre.files@[x].id && post.files@[x].bucket_id
                    == pre.files@[x].bucket_id && post.files@[x].key@ == pre.files@[x].key@);
                assert(post.files@[y].id == pre.files@[y].id && post.files@[y].bucket_id
                    == pre.files@[y].bucket_id && post.files@[y].key@ == pre.files@[y].key@);
            }
            assert forall|x: int| 0 <= x < post.files@.len() implies (#[trigger] post.files@[x]).id
                < post.next_id by {
                assert(post.files@[x].id == pre.files@[x].id);
            }
        } else {
            assert forall|x: int, y: int|
                #![trigger post.files@[x], post.files@[y]]
                0 <= x < y < post.files@.len() implies post.files@[x].id != post.files@[y].id && !(
                post.files@[x].bucket_id == post.files@[y].bucket_id && post.files@[x].key@
                    == post.files@[y].key@) by {
                if y < post.files@.len() - 1 {
                    assert(post.files@[x] == pre.files@[x]);
                    assert(post.files@[y] == pre.files@[y]);
                } else {
                    assert(post.files@[x] == pre.files@[x]);
                    assert(pre.files@[x].id < pre.next_id);
                    assert(!(pre.files@[x].bucket_id == bid && pre.files@[x].key@ == key@));
                }
            }
            assert forall|x: int| 0 <= x < post.files@.len() implies (#[trigger] post.files@[x]).id
                < post.next_id by {
                if x < post.files@.len() - 1 {
                    assert(post.files@[x] == pre.files@[x]);
                }
            }
        }
        assert forall|x: int| 0 <= x < post.files@.len() implies post.has_bucket_id(
            (#[trigger] post.files@[x]).bucket_id,
        ) by {
            if existed || x < post.files@.len() - 1 {
                if existed && x == pre.file_idx(bid, key@) {
                    assert(post.files@[x].bucket_id == pre.files@[x].bucket_id);
                }
                assert(post.files@[x].bucket_id == pre.files@[x].bucket_id);
                assert(pre.has_bucket_id(pre.files@[x].bucket_id));
                let w = choose|w: int|
                    0 <= w < pre.buckets@.len() && (#[trigger] pre.buckets@[w]).id
                        == pre.files@[x].bucket_id;
                assert(post.buckets@[w] == pre.buckets@[w]);
            } else {
                assert(post.files@[x].bucket_id == bid);
                assert(post.buckets@[bi].id == bid);
            }
        }
        assert forall|x: int| 0 <= x < post.files@.len() implies post.has_version_row(
            (#[trigger] post.files@[x]).current_version,
            post.files@[x].id,
        ) by {
            let changed: int = if existed {
                pre.file_idx(bid, key@)
            } else {
                post.files@.len() - 1
            };
            if x == changed {
                assert(post.files@[x].current_version == vid);
                assert(post.file_versions@[vlast].id == vid && post.file_versions@[vlast].file_id
                    == post.files@[x].id);
            } else {
                assert(post.files@[x] == pre.files@[x]);
                assert(pre.has_version_row(pre.files@[x].current_version, pre.files@[x].id));
                let w = choose|w: int|
                    0 <= w < pre.file_versions@.len() && (#[trigger] pre.file_versions@[w]).id
                        == pre.files@[x].current_version && pre.file_versions@[w].file_id
                        == pre.files@[x].id;
                assert(post.file_versions@[w] == pre.file_versions@[w]);
            }
        }
        // versions
        assert forall|x: int, y: int|
            #![trigger post.file_versions@[x], post.file_versions@[y]]
            0 <= x < y < post.file_versions@.len() implies post.file_versions@[x].id
            < post.file_versions@[y].id by {
            if y < vlast {
                assert(post.file_versions@[x] == pre.file_versions@[x]);
                assert(post.file_versions@[y] == pre.file_versions@[y]);
            } else {
                assert(post.file_versions@[x] == pre.file_versions@[x]);
                assert(pre.file_versions@[x].id < pre.next_id);
            }
        }
        assert forall|x: int|
            0 <= x < post.file_versions@.len() implies (#[trigger] post.file_versions@[x]).id
            < post.next_id by {
            if x < vlast {
                assert(post.file_versions@[x] == pre.file_versions@[x]);
            }
        }
        assert forall|x: int| 0 <= x < post.file_versions@.len() implies post.has_file_id(
            (#[trigger] post.file_versions@[x]).file_id,
        ) by {
            if x < vlast {
                assert(post.file_versions@[x] == pre.file_versions@[x]);
                assert(pre.has_file_id(pre.file_versions@[x].file_id));
                let w = choose|w: int|
                    0 <= w < pre.files@.len() && (#[trigger] pre.files@[w]).id
                        == pre.file_versions@[x].file_id;
                assert(post.files@[w].id == pre.files@[w].id);
            } else {
                if existed {
                    let fi = pre.file_idx(bid, key@);
                    assert(post.files@[fi].id == pre.file_at(bid, key@).id);
                } else {
                    assert(post.files@[post.files@.len() - 1].id == post.file_versions@[x].file_id);
                }
            }
        }
        assert forall|x: int|
            0 <= x < post.file_versions@.len() implies match (#[trigger] post.file_versions@[x]).file_data_id {
            Some(did) => post.has_data(did),
            None => true,
        } by {
            if x < vlast {
                assert(post.file_versions@[x] == pre.file_versions@[x]);
                match pre.file_versions@[x].file_data_id {
                    Some(did) => {
                        assert(pre.has_data(did));
                        let w = choose|w: int|
                            0 <= w < pre.file_data@.len() && (#[trigger] pre.file_data@[w]).id
                                == did;
                        assert(post.file_data@[w] == pre.file_data@[w]);
                    },
                    None => {},
                }
            } else {
                match upload {
                    Some(u) => {
                        assert(post.file_data@[post.file_data@.len() - 1].id == pre.next_id);
                    },
                    None => {},
                }
            }
        }
        // data and parts
        match upload {
            Some(u) => {
                let dlast = post.file_data@.len() - 1;
                let plast = post.file_data_parts@.len() - 1;
                assert forall|x: int, y: int|
                    #![trigger post.file_data@[x], post.file_data@[y]]
                    0 <= x < y < post.file_data@.len() implies post.file_data@[x].id
                    != post.file_data@[y].id by {
                    assert(post.file_data@[x] == pre.file_data@[x]);
                    if y < dlast {
                        assert(post.file_data@[y] == pre.file_data@[y]);
                    } else {
                        assert(pre.file_data@[x].id < pre.next_id);
                    }
                }
                assert forall|x: int|
                    0 <= x < post.file_data@.len() implies (#[trigger] post.file_data@[x]).id
                    < post.next_id by {
                    if x < dlast {
                        assert(post.file_data@[x] == pre.file_data@[x]);
                    }
                }
                assert forall|x: int| 0 <= x < post.file_data@.len() implies post.has_part_for(
                    (#[trigger] post.file_data@[x]).id,
                ) by {
                    if x < dlast {
                        assert(post.file_data@[x] == pre.file_data@[x]);
                        assert(pre.has_part_for(pre.file_data@[x].id));
                        let w = choose|w: int|
                            0 <= w < pre.file_data_parts@.len() && (#[trigger] pre.file_data_parts@[w]).file_data_id
                                == pre.file_data@[x].id;
                        assert(post.file_data_parts@[w] == pre.file_data_parts@[w]);
                    } else {
                        assert(post.file_data_parts@[plast].file_data_id == post.file_data@[x].id);
                    }
                }
                assert forall|x: int|
                    0 <= x < pre.file_data_parts@.len() implies (#[trigger] pre.file_data_parts@[x]).file_data_id
                    < pre.next_id by {
                    assert(pre.has_data(pre.file_data_parts@[x].file_data_id));
                    let w = choose|w: int|
                        0 <= w < pre.file_data@.len() && (#[trigger] pre.file_data@[w]).id
                            == pre.file_data_parts@[x].file_data_id;
                }
                assert forall|x: int, y: int|
                    #![trigger post.file_data_parts@[x], post.file_data_parts@[y]]
                    0 <= x < y < post.file_data_parts@.len() implies post.file_data_parts@[x].id
                    != post.file_data_parts@[y].id && post.file_data_parts@[x].file_data_id
                    != post.file_data_parts@[y].file_data_id by {
                    assert(post.file_data_parts@[x] == pre.file_data_parts@[x]);
                    if y < plast {
                        assert(post.file_data_parts@[y] == pre.file_data_parts@[y]);
                    } else {
                        assert(pre.file_data_parts@[x].id < pre.next_id);
                        assert(pre.file_data_parts@[x].file_data_id < pre.next_id);
                    }
                }
                assert forall|x: int|
                    0 <= x < post.file_data_parts@.len() implies (#[trigger] post.file_data_parts@[x]).id
                    < post.next_id by {
                    if x < plast {
                        assert(post.file_data_parts@[x] == pre.file_data_parts@[x]);
                    }
                }
                assert forall|x: int|
                    0 <= x < post.file_data_parts@.len() implies {
                    let p = #[trigger] post.file_data_parts@[x];
                    &&& post.has_data(p.file_data_id)
                    &&& p.start == 0
                    &&& p.end == post.data_at(p.file_data_id).size
                    &&& ranges_tile(p.chunks@, p.end - p.start)
                } by {
                    let p = post.file_data_parts@[x];
                    if x < plast {
                        assert(pre.file_data_parts@[x] == p);
                        assert(pre.has_data(p.file_data_id));
                        let pi = pre.data_idx(p.file_data_id);
                        assert(0 <= pi < pre.file_data@.len() && pre.file_data@[pi].id
                            == p.file_data_id);
                        assert(post.file_data@[pi] == pre.file_data@[pi]);
                        assert(post.has_data(p.file_data_id));
                        let ci = post.data_idx(p.file_data_id);
                        assert(0 <= ci < post.file_data@.len() && post.file_data@[ci].id
                            == p.file_data_id);
                        assert(ci == pi);
                        assert(post.data_at(p.file_data_id) == pre.data_at(p.file_data_id));
                    } else {
                        assert(p.file_data_id == pre.next_id);
                        assert(post.file_data@[dlast].id == p.file_data_id);
                        assert(post.has_data(p.file_data_id));
                        let ci = post.data_idx(p.file_data_id);
                        assert(0 <= ci < post.file_data@.len() && post.file_data@[ci].id
                            == p.file_data_id);
                        assert(ci == dlast);
                        assert(post.data_at(p.file_data_id).size == u.size);
                    }
                }
            },
            None => {
                assert forall|x: int| 0 <= x < post.file_data@.len() implies post.has_part_for(
                    (#[trigger] post.file_data@[x]).id,
                ) by {
                    assert(pre.has_part_for(pre.file_data@[x].id));
                    let w = choose|w: int|
                        0 <= w < pre.file_data_parts@.len() && (#[trigger] pre.file_data_parts@[w]).file_data_id
                            == pre.file_data@[x].id;
                    assert(post.file_data_parts@[w] == pre.file_data_parts@[w]);
                }
                assert forall|x: int|
                    0 <= x < post.file_data_parts@.len() implies {
                    let p = #[trigger] post.file_data_parts@[x];
                    &&& post.has_data(p.file_data_id)
                    &&& p.start == 0
                    &&& p.end == post.data_at(p.file_data_id).size
                    &&& ranges_tile(p.chunks@, p.end - p.start)
                } by {
                    let p = post.file_data_parts@[x];
                    assert(pre.file_data_parts@[x] == p);
                    assert(pre.has_data(p.file_data_id));
                    let pi = pre.data_idx(p.file_data_id);
                    assert(0 <= pi < pre.file_data@.len() && pre.file_data@[pi].id
                        == p.file_data_id);
                    assert(post.file_data@[pi] == pre.file_data@[pi]);
                    assert(post.has_data(p.file_data_id));
                    let ci = post.data_idx(p.file_data_id);
                    assert(0 <= ci < post.file_data@.len() && post.file_data@[ci].id
                        == p.file_data_id);
                    assert(ci == pi);
                    assert(post.data_at(p.file_data_id) == pre.data_at(p.file_data_id));
                }
            },
        }
    }

    /// An empty store: no buckets, no objects, no history.
    pub fn new() -> (s: MetaStore)
        ensures
            s.wf(),
            s.buckets@.len() == 0,
            s.files@.len() == 0,
            s.file_versions@.len() == 0,
            s.file_data@.len() == 0,
            s.file_data_parts@.len() == 0,
            s.next_id == 0,
    {
        MetaStore {
            buckets: Vec::new(),
            files: Vec::new(),
            file_versions: Vec::new(),
            file_data: Vec::new(),
            file_data_parts: Vec::new(),
            next_id: 0,
        }
    }

    fn find_bucket(&self, name: &String) -> (r: Option<usize>)
        ensures
            r is Some <==> self.has_bucket(name@),
            r matches Some(i) ==> 0 <= i < self.buckets@.len() && self.buckets@[i as int].name@
                == name@,
    {
        let n = self.buckets.len();
        let mut i: usize = 0;
        while i < n
            invariant
                n == self.buckets@.len(),
                i <= n,
                forall|j: int| 0 <= j < i ==> (#[trigger] self.buckets@[j]).name@ != name@,
            decreases n - i,
        {
            if self.buckets[i].name.eq(name) {
                return Some(i);
            }
            i += 1;
        }
        None
    }

    fn find_file(&self, bucket_id: u64, key: &String) -> (r: Option<usize>)
        ensures
            r is Some <==> self.has_file(bucket_id, key@),
            r matches Some(i) ==> 0 <= i < self.files@.len() && self.files@[i as int].bucket_id
                == bucket_id && self.files@[i as int].key@ == key@,
    {
        let n = self.files.len();
        let mut i: usize = 0;
        while i < n
            invariant
                n == self.files@.len(),
                i <= n,
                forall|j: int|
                    0 <= j < i ==> !((#[trigger] self.files@[j]).bucket_id == bucket_id
                        && self.files@[j].key@ == key@),
            decreases n - i,
        {
            if self.files[i].bucket_id == bucket_id && self.files[i].key.eq(key) {
                return Some(i);
            }
            i += 1;
        }
        None
    }

    fn find_version(&self, vid: u64) -> (r: Option<usize>)
        ensures
            r is Some <==> self.has_version(vid),
            r matches Some(i) ==> 0 <= i < self.file_versions@.len() && self.file_versions@[
                i as int
            ].id == vid,
    {
        let n = self.file_versions.len();
        let mut i: usize = 0;
        while i < n
            invariant
                n == self.file_versions@.len(),
                i <= n,
                forall|j: int| 0 <= j < i ==> (#[trigger] self.file_versions@[j]).id != vid,
            decreases n - i,
        {
            if self.file_versions[i].id == vid {
                return Some(i);
            }
            i += 1;
        }
        None
    }

    fn find_data(&self, did: u64) -> (r: Option<usize>)
        ensures
            r is Some <==> self.has_data(did),
            r matches Some(i) ==> 0 <= i < self.file_data@.len() && self.file_data@[i as int].id
                == did,
    {
        let n = self.file_data.len();
        let mut i: usize = 0;
        while i < n
            invariant
                n == self.file_data@.len(),
                i <= n,
                forall|j: int| 0 <= j < i ==> (#[trigger] self.file_data@[j]).id != did,
            decreases n - i,
        {
            if self.file_data[i].id == did {
                return Some(i);
            }
            i += 1;
        }
        None
    }

    fn find_part_for(&self, did: u64) -> (r: Option<usize>)
        ensures
            r is Some <==> self.has_part_for(did),
            r matches Some(i) ==> 0 <= i < self.file_data_parts@.len() && self.file_data_parts@[
                i as int
            ].file_data_id == did,
    {
        let n = self.file_data_parts.len();
        let mut i: usize = 0;
        while i < n
            invariant
                n == self.file_data_parts@.len(),
                i <= n,
                forall|j: int|
                    0 <= j < i ==> (#[trigger] self.file_data_parts@[j]).file_data_id != did,
            decreases n - i,
        {
            if self.file_data_parts[i].file_data_id == did {
                return Some(i);
            }
            i += 1;
        }
        None
    }

    /// Create a bucket. The unique-name constraint makes a second create
    /// of the same name fail with `BucketAlreadyExists`, changing
    /// nothing.
    pub fn create_bucket(&mut self, name: &String, created_at: i64) -> (r: Result<u64, S3Error>)
        requires
            old(self).wf(),
            old(self).next_id < u64::MAX,
        ensures
            final(self).wf(),
            r is Err <==> old(self).has_bucket(name@),
            r matches Err(e) ==> e == S3Error::BucketAlreadyExists && *final(self) == *old(self),
            r matches Ok(id) ==> {
                &&& id == old(self).next_id
                &&& final(self).buckets@ == old(self).buckets@.push(
                    BucketRow { id, name: *name, created_at },
                )
                &&& final(self).files == old(self).files
                &&& final(self).file_versions == old(self).file_versions
                &&& final(self).file_data == old(self).file_data
                &&& final(self).file_data_parts == old(self).file_data_parts
                &&& final(self).next_id == old(self).next_id + 1
                &&& final(self).has_bucket(name@)
            },
    {
        match self.find_bucket(name) {
            Some(_) => Err(S3Error::BucketAlreadyExists),
            None => {
                let id = self.next_id;
                self.buckets.push(BucketRow { id, name: name.clone(), created_at });
                self.next_id = self.next_id + 1;
                proof {
                    let pre = *old(self);
                    let post = *self;
                    assert forall|x: int, y: int|
                        #![trigger post.buckets@[x], post.buckets@[y]]
                        0 <= x < y < post.buckets@.len() implies post.buckets@[x].id
                        != post.buckets@[y].id && post.buckets@[x].name@
                        != post.buckets@[y].name@ by {
                        if y < post.buckets@.len() - 1 {
                            assert(post.buckets@[x] == pre.buckets@[x]);
                            assert(post.buckets@[y] == pre.buckets@[y]);
                        } else {
                            assert(post.buckets@[x] == pre.buckets@[x]);
                            assert(pre.buckets@[x].id < pre.next_id);
                            assert(pre.buckets@[x].name@ != name@);
                        }
                    }
                    assert forall|fi: int| 0 <= fi < post.files@.len() implies post.has_bucket_id(
                        (#[trigger] post.files@[fi]).bucket_id,
                    ) by {
                        assert(pre.has_bucket_id(pre.files@[fi].bucket_id));
                        let w = choose|w: int|
                            0 <= w < pre.buckets@.len() && (#[trigger] pre.buckets@[w]).id
                                == pre.files@[fi].bucket_id;
                        assert(post.buckets@[w] == pre.buckets@[w]);
                    }
                    assert(post.buckets@[post.buckets@.len() - 1].name@ == name@);
                    Self::lemma_wf_buckets_changed(pre, post);
                }
                Ok(id)
            },
        }
    }

    /// Delete a bucket by name. A bucket still holding files cannot go —
    /// the files' foreign keys would dangle — and that surfaces as an
    /// internal error, exactly as a constraint violation does.
    pub fn delete_bucket(&mut self, name: &String) -> (r: Result<(), S3Error>)
        requires
            old(self).wf(),
        ensures
            final(self).wf(),
            r is Err ==> *final(self) == *old(self),
            !old(self).has_bucket(name@) ==> r == Err::<(), S3Error>(S3Error::NoSuchBucket),
            old(self).has_bucket(name@) && (exists|i: int|
                0 <= i < old(self).files@.len() && (#[trigger] old(self).files@[i]).bucket_id == old(
                    self,
                ).bucket_id_of(name@)) ==> r == Err::<(), S3Error>(S3Error::InternalError),
            old(self).has_bucket(name@) && (forall|i: int|
                0 <= i < old(self).files@.len() ==> (#[trigger] old(self).files@[i]).bucket_id
                    != old(self).bucket_id_of(name@)) ==> {
                &&& r is Ok
                &&& final(self).buckets@ == old(self).buckets@.remove(old(self).bucket_idx(name@))
                &&& final(self).files == old(self).files
                &&& final(self).file_versions == old(self).file_versions
                &&& final(self).file_data == old(self).file_data
                &&& final(self).file_data_parts == old(self).file_data_parts
                &&& final(self).next_id == old(self).next_id
                &&& !final(self).has_bucket(name@)
            },
    {
        let bidx = match self.find_bucket(name) {
            None => {
                return Err(S3Error::NoSuchBucket);
            },
            Some(i) => i,
        };
        let bid = self.buckets[bidx].id;
        proof {
            assert(self.bucket_idx(name@) == bidx) by {
                let c = self.bucket_idx(name@);
                if c != bidx {
                    assert(self.buckets@[c].name@ == name@ && self.buckets@[bidx as int].name@
                        == name@);
                }
            }
        }
        let nf = self.files.len();
        let mut i: usize = 0;
        while i < nf
            invariant
                *self == *old(self),
                old(self).wf(),
                nf == self.files@.len(),
                i <= nf,
                old(self).has_bucket(name@),
                bid == old(self).bucket_id_of(name@),
                bidx == old(self).bucket_idx(name@),
                bidx < self.buckets@.len(),
                forall|j: int| 0 <= j < i ==> (#[trigger] self.files@[j]).bucket_id != bid,
            decreases nf - i,
        {
            if self.files[i].bucket_id == bid {
                return Err(S3Error::InternalError);
            }
            i += 1;
        }
        self.buckets.remove(bidx);
        proof {
            let pre = *old(self);
            let post = *self;
            assert forall|x: int, y: int|
                #![trigger post.buckets@[x], post.buckets@[y]]
                0 <= x < y < post.buckets@.len() implies post.buckets@[x].id != post.buckets@[y].id
                && post.buckets@[x].name@ != post.buckets@[y].name@ by {
                let px = if x < bidx {
                    x
                } else {
                    x + 1
                };
                let py = if y < bidx {
                    y
                } else {
                    y + 1
                };
                assert(post.buckets@[x] == pre.buckets@[px]);
                assert(post.buckets@[y] == pre.buckets@[py]);
            }
            assert forall|x: int| 0 <= x < post.buckets@.len() implies (#[trigger] post.buckets@[x]).id
                < post.next_id by {
                if x < bidx {
                    assert(post.buckets@[x] == pre.buckets@[x]);
                } else {
                    assert(post.buckets@[x] == pre.buckets@[x + 1]);
                }
            }
            assert forall|fi: int| 0 <= fi < post.files@.len() implies post.has_bucket_id(
                (#[trigger] post.files@[fi]).bucket_id,
            ) by {
                assert(pre.has_bucket_id(pre.files@[fi].bucket_id));
                let w = choose|w: int|
                    0 <= w < pre.buckets@.len() && (#[trigger] pre.buckets@[w]).id
                        == pre.files@[fi].bucket_id;
                assert(pre.files@[fi].bucket_id != bid);
                assert(w != bidx);
                if w < bidx {
                    assert(post.buckets@[w] == pre.buckets@[w]);
                } else {
                    assert(post.buckets@[w - 1] == pre.buckets@[w]);
                }
            }
            assert forall|w: int|
                0 <= w < post.buckets@.len() implies (#[trigger] post.buckets@[w]).name@
                != name@ by {
                if w < bidx {
                    assert(post.buckets@[w] == pre.buckets@[w]);
                    assert(pre.buckets@[w].name@ != name@);
                } else {
                    assert(post.buckets@[w] == pre.buckets@[w + 1]);
                }
            }
            Self::lemma_wf_buckets_changed(pre, post);
        }
        Ok(())
    }

    /// The write transaction of a PUT (§ metadata/version engine): called
    /// with the upload pipeline's manifest, or with none for a zero-byte
    /// object. Succeeds if and only if the bucket exists; on failure the
    /// store is exactly what it was — the rollback a real transaction
    /// guarantees. On success the returned version id is fresh, the
    /// version history has grown by exactly that one row, and the file's
    /// `current_version` points at it.
    pub fn put_commit(&mut self, bucket: &String, key: &String, upload: Option<UploadResult>) -> (r:
        Result<u64, S3Error>)
        requires
            old(self).wf(),
            old(self).next_id + 4 <= u64::MAX,
            upload matches Some(u) ==> u.wf(),
        ensures
            final(self).wf(),
            r is Err ==> *final(self) == *old(self) && r == Err::<u64, S3Error>(
                S3Error::NoSuchBucket,
            ),
            r is Ok <==> old(self).has_bucket(bucket@),
            r matches Ok(vid) ==> {
                &&& put_commit_post(*old(self), *final(self), *bucket, *key, upload, vid)
                &&& !old(self).has_version(vid)
                &&& final(self).has_version(vid)
            },
    {
        let bidx = match self.find_bucket(bucket) {
            None => {
                return Err(S3Error::NoSuchBucket);
            },
            Some(i) => i,
        };
        let bid = self.buckets[bidx].id;
        proof {
            let c = self.bucket_idx(bucket@);
            if c != bidx {
                assert(self.buckets@[c].name@ == bucket@ && self.buckets@[bidx as int].name@
                    == bucket@);
            }
            assert(bid == self.bucket_id_of(bucket@));
        }
        let mut did_opt: Option<u64> = None;
        match upload {
            Some(u) => {
                let did = self.next_id;
                self.file_data.push(FileDataRow { id: did, size: u.size, md5: u.md5 });
                self.file_data_parts.push(
                    FileDataPartRow {
                        id: did + 1,
                        file_data_id: did,
                        backend_key: u.backend_ref,
                        start: 0,
                        end: u.size,
                        chunks: u.chunks,
                    },
                );
                self.next_id = did + 2;
                did_opt = Some(did);
            },
            None => {},
        }
        let ghost mid = *self;
        let r = match self.find_file(bid, key) {
            Some(i) => {
                let vid = self.next_id;
                self.next_id = vid + 1;
                let fid = self.files[i].id;
                self.file_versions.push(
                    FileVersionRow { id: vid, file_id: fid, file_data_id: did_opt },
                );
                self.files[i].current_version = vid;
                self.files[i].current_version_is_delete_marker = false;
                proof {
                    let pre = *old(self);
                    let fi = pre.file_idx(bid, key@);
                    assert(pre.has_file(bid, key@)) by {
                        assert(pre.files@[i as int].bucket_id == bid && pre.files@[i as int].key@
                            == key@);
                    }
                    assert(0 <= fi < pre.files@.len() && pre.files@[fi].bucket_id == bid
                        && pre.files@[fi].key@ == key@);
                    assert(fi == i) by {
                        if fi < i {
                            assert(!(pre.files@[fi].bucket_id == pre.files@[i as int].bucket_id
                                && pre.files@[fi].key@ == pre.files@[i as int].key@));
                        } else if i < fi {
                            assert(!(pre.files@[i as int].bucket_id == pre.files@[fi].bucket_id
                                && pre.files@[i as int].key@ == pre.files@[fi].key@));
                        }
                    }
                    assert(self.files@ =~= pre.files@.update(
                        fi,
                        FileRow {
                            id: pre.file_at(bid, key@).id,
                            bucket_id: pre.file_at(bid, key@).bucket_id,
                            key: pre.file_at(bid, key@).key,
                            current_version: vid,
                            current_version_is_delete_marker: false,
                        },
                    ));
                    assert(put_commit_post(pre, *self, *bucket, *key, upload, vid));
                }
                Ok(vid)
            },
            None => {
                let fid = self.next_id;
                let vid = fid + 1;
                self.next_id = vid + 1;
                self.file_versions.push(
                    FileVersionRow { id: vid, file_id: fid, file_data_id: did_opt },
                );
                self.files.push(
                    FileRow {
                        id: fid,
                        bucket_id: bid,
                        key: key.clone(),
                        current_version: vid,
                        current_version_is_delete_marker: false,
                    },
                );
                proof {
                    let pre = *old(self);
                    assert(!pre.has_file(bid, key@)) by {
                        if pre.has_file(bid, key@) {
                            let w = pre.file_idx(bid, key@);
                            assert(mid.files@[w].bucket_id == bid && mid.files@[w].key@ == key@);
                        }
                    }
                    assert(put_commit_post(pre, *self, *bucket, *key, upload, vid));
                }
                Ok(vid)
            },
        };
        proof {
            let pre = *old(self);
            let post = *self;
            let vid = r->Ok_0;
            Self::lemma_wf_after_commit(pre, post, *bucket, *key, upload, vid);
            assert(!pre.has_version(vid)) by {
                assert forall|w: int|
                    0 <= w < pre.file_versions@.len() implies (#[trigger] pre.file_versions@[w]).id
                    != vid by {}
            }
            assert(post.file_versions@[post.file_versions@.len() - 1].id == vid);
        }
        r
    }

    /// Resolve a GET/HEAD: the bucket by name, the file's current
    /// non-delete-marker version, and that version's blob metadata. A
    /// missing bucket is `NoSuchBucket`; a missing key or a delete marker
    /// is `NoSuchKey`; a version with no blob is the zero-byte object.
    pub fn lookup_object(&self, bucket: &String, key: &String) -> (r: Result<ObjectMeta, S3Error>)
        requires
            self.wf(),
        ensures
            r == Err::<ObjectMeta, S3Error>(S3Error::NoSuchBucket) <==> !self.has_bucket(bucket@),
            self.has_bucket(bucket@) ==> {
                let bid = self.bucket_id_of(bucket@);
                let missing = !self.has_file(bid, key@) || self.file_at(
                    bid,
                    key@,
                ).current_version_is_delete_marker;
                &&& (r == Err::<ObjectMeta, S3Error>(S3Error::NoSuchKey) <==> missing)
                &&& (r is Ok <==> !missing)
                &&& (!missing ==> {
                    let v = self.version_at(self.file_at(bid, key@).current_version);
                    match v.file_data_id {
                        None => r == Ok::<ObjectMeta, S3Error>(ObjectMeta::Empty),
                        Some(did) => r matches Ok(m) && m matches ObjectMeta::Content {
                            size,
                            md5,
                            data_id,
                        } && size == self.data_at(did).size && md5@ == self.data_at(did).md5@
                            && data_id == did,
                    }
                })
            },
    {
        let bidx = match self.find_bucket(bucket) {
            None => {
                return Err(S3Error::NoSuchBucket);
            },
            Some(i) => i,
        };
        let bid = self.buckets[bidx].id;
        proof {
            let c = self.bucket_idx(bucket@);
            if c != bidx {
                assert(self.buckets@[c].name@ == bucket@ && self.buckets@[bidx as int].name@
                    == bucket@);
            }
            assert(bid == self.bucket_id_of(bucket@));
        }
        let fidx = match self.find_file(bid, key) {
            None => {
                return Err(S3Error::NoSuchKey);
            },
            Some(i) => i,
        };
        proof {
            let c = self.file_idx(bid, key@);
            if c != fidx {
                assert(self.files@[c].bucket_id == bid && self.files@[c].key@ == key@);
                assert(self.files@[fidx as int].bucket_id == bid && self.files@[fidx as int].key@
                    == key@);
            }
            assert(self.file_at(bid, key@) == self.files@[fidx as int]);
        }
        if self.files[fidx].current_version_is_delete_marker {
            return Err(S3Error::NoSuchKey);
        }
        let vid = self.files[fidx].current_version;
        let vidx = match self.find_version(vid) {
            None => {
                proof {
                    assert(self.has_version_row(vid, self.files@[fidx as int].id));
                    let w = choose|w: int|
                        0 <= w < self.file_versions@.len() && (#[trigger] self.file_versions@[w]).id
                            == vid && self.file_versions@[w].file_id == self.files@[fidx
                            as int].id;
                    assert(self.file_versions@[w].id == vid);
                    assert(false);
                }
                return Err(S3Error::InternalError);
            },
            Some(i) => i,
        };
        proof {
            let c = self.version_idx(vid);
            if c < vidx {
                assert(self.file_versions@[c].id < self.file_versions@[vidx as int].id);
            } else if vidx < c {
                assert(self.file_versions@[vidx as int].id < self.file_versions@[c].id);
            }
            assert(self.version_at(vid) == self.file_versions@[vidx as int]);
        }
        match self.file_versions[vidx].file_data_id {
            None => Ok(ObjectMeta::Empty),
            Some(did) => {
                let didx = match self.find_data(did) {
                    None => {
                        proof {
                            assert(false);
                        }
                        return Err(S3Error::InternalError);
                    },
                    Some(i) => i,
                };
                proof {
                    let c = self.data_idx(did);
                    if c < didx {
                        assert(self.file_data@[c].id != self.file_data@[didx as int].id);
                    } else if didx < c {
                        assert(self.file_data@[didx as int].id != self.file_data@[c].id);
                    }
                    assert(self.data_at(did) == self.file_data@[didx as int]);
                }
                let size = self.file_data[didx].size;
                let md5 = copy_bytes(&self.file_data[didx].md5);
                Ok(ObjectMeta::Content { size, md5, data_id: did })
            },
        }
    }

    /// Resolve the backend location of a blob: its single part, spanning
    /// the whole of `[0, size)`.
    pub fn resolve_part(&self, data_id: u64) -> (r: Option<PartSpan>)
        requires
            self.wf(),
        ensures
            r is Some <==> self.has_data(data_id),
            r matches Some(p) ==> {
                &&& p.backend_key == self.part_for(data_id).backend_key
                &&& p.start == 0
                &&& p.end == self.data_at(data_id).size
            },
    {
        match self.find_part_for(data_id) {
            None => {
                proof {
                    if self.has_data(data_id) {
                        let w = self.data_idx(data_id);
                        assert(0 <= w < self.file_data@.len() && self.file_data@[w].id == data_id);
                        assert(self.has_part_for(self.file_data@[w].id));
                    }
                }
                None
            },
            Some(i) => {
                proof {
                    let c = self.part_idx_for(data_id);
                    if c < i {
                        assert(self.file_data_parts@[c].file_data_id != self.file_data_parts@[
                            i as int
                        ].file_data_id);
                    } else if i < c {
                        assert(self.file_data_parts@[i as int].file_data_id
                            != self.file_data_parts@[c].file_data_id);
                    }
                    assert(self.part_for(data_id) == self.file_data_parts@[i as int]);
                    assert(self.has_data(data_id));
                    let w = self.data_idx(data_id);
                    assert(0 <= w < self.file_data@.len() && self.file_data@[w].id == data_id);
                }
                let p = &self.file_data_parts[i];
                Some(PartSpan { backend_key: p.backend_key.clone(), start: p.start, end: p.end })
            },
        }
    }
}

/// The metadata a GET/HEAD serves from: a zero-byte object, or a blob's
/// size, whole-object MD5 and blob id.
#[derive(Debug)]
pub enum ObjectMeta {
    Empty,
    Content { size: u64, md5: Vec<u8>, data_id: u64 },
}

/// One backend location of a blob: the opaque content reference the
/// backend returned at finalize, and the byte span it stores.
#[derive(Debug)]
pub struct PartSpan {
    pub backend_key: String,
    pub start: u64,
    pub end: u64,
}

fn copy_bytes(src: &Vec<u8>) -> (r: Vec<u8>)
    ensures
        r@ == src@,
{
    let mut r: Vec<u8> = Vec::new();
    let n = src.len();
    let mut i: usize = 0;
    while i < n
        invariant
            n == src@.len(),
            i <= n,
            r@ == src@.subrange(0, i as int),
        decreases n - i,
    {
        r.push(src[i]);
        i += 1;
        proof {
            assert(r@ =~= src@.subrange(0, i as int));
        }
    }
    proof {
        assert(r@ =~= src@);
    }
    r
}

/// Law: writers to one `(bucket, key)` are serialized by the file row
/// lock, so their transactions apply one after the other. After two
/// committed writes, the key's current version is the one created by the
/// later commit, and both version rows stand in the history — no version
/// is ever lost or replaced.
pub proof fn lemma_last_writer_wins(
    s0: MetaStore,
    s1: MetaStore,
    s2: MetaStore,
    bucket: String,
    key: String,
    u1: Option<UploadResult>,
    u2: Option<UploadResult>,
    v1: u64,
    v2: u64,
)
    requires
        s0.wf(),
        s1.wf(),
        s2.wf(),
        put_commit_post(s0, s1, bucket, key, u1, v1),
        put_commit_post(s1, s2, bucket, key, u2, v2),
    ensures
        s2.has_bucket(bucket@),
        s2.has_file(s2.bucket_id_of(bucket@), key@),
        s2.file_at(s2.bucket_id_of(bucket@), key@).current_version == v2,
        s2.has_version(v1),
        s2.has_version(v2),
        v1 != v2,
{
    let b0 = s0.bucket_idx(bucket@);
    assert(0 <= b0 < s0.buckets@.len() && s0.buckets@[b0].name@ == bucket@);
    assert(s1.buckets@[b0].name@ == bucket@);
    assert(s1.has_bucket(bucket@));
    assert(s2.buckets@[b0].name@ == bucket@);
    assert(s2.has_bucket(bucket@));
    let bid = s0.bucket_id_of(bucket@);
    assert(s1.bucket_id_of(bucket@) == bid) by {
        let c = s1.bucket_idx(bucket@);
        if c != b0 {
            assert(s1.buckets@[c].name@ == bucket@ && s1.buckets@[b0].name@ == bucket@);
            assert(s0.buckets@[c].name@ == s1.buckets@[c].name@);
        }
    }
    assert(s2.bucket_id_of(bucket@) == bid) by {
        let c = s2.bucket_idx(bucket@);
        if c != b0 {
            assert(s2.buckets@[c].name@ == bucket@ && s2.buckets@[b0].name@ == bucket@);
            assert(s1.buckets@[c].name@ == s2.buckets@[c].name@);
        }
    }
    // after the first commit the file row exists and carries v1
    let j1: int = if s0.has_file(bid, key@) {
        s0.file_idx(bid, key@)
    } else {
        s1.files@.len() - 1
    };
    assert(0 <= j1 < s1.files@.len() && s1.files@[j1].bucket_id == bid && s1.files@[j1].key@
        == key@ && s1.files@[j1].current_version == v1);
    assert(s1.has_file(bid, key@));
    // so the second commit takes the update branch
    let j2 = s1.file_idx(bid, key@);
    assert(0 <= j2 < s1.files@.len() && s1.files@[j2].bucket_id == bid && s1.files@[j2].key@
        == key@);
    assert(s2.files@ == s1.files@.update(
        j2,
        FileRow {
            id: s1.file_at(bid, key@).id,
            bucket_id: s1.file_at(bid, key@).bucket_id,
            key: s1.file_at(bid, key@).key,
            current_version: v2,
            current_version_is_delete_marker: false,
        },
    ));
    assert(s2.files@[j2].bucket_id == bid && s2.files@[j2].key@ == key@
        && s2.files@[j2].current_version == v2);
    assert(s2.has_file(bid, key@));
    let c2 = s2.file_idx(bid, key@);
    assert(c2 == j2) by {
        if c2 < j2 {
            assert(!(s2.files@[c2].bucket_id == s2.files@[j2].bucket_id && s2.files@[c2].key@
                == s2.files@[j2].key@));
        } else if j2 < c2 {
            assert(!(s2.files@[j2].bucket_id == s2.files@[c2].bucket_id && s2.files@[j2].key@
                == s2.files@[c2].key@));
        }
    }
    assert(s2.file_at(bid, key@).current_version == v2);
    // both versions stand in the history
    let l1 = s1.file_versions@.len() - 1;
    assert(s1.file_versions@[l1].id == v1);
    assert(s2.file_versions@[l1].id == v1);
    assert(s2.has_version(v1));
    let l2 = s2.file_versions@.len() - 1;
    assert(s2.file_versions@[l2].id == v2);
    assert(s2.has_version(v2));
    assert(v1 < s1.next_id);
    assert(v1 != v2);
}

/// Law: a read immediately after a committed write of a manifest serves
/// exactly what was written — the file's current version is the new one,
/// it is no delete marker, and it resolves to the blob recorded with the
/// manifest's size, whole-object MD5 and backend reference.
pub proof fn lemma_get_after_put(
    pre: MetaStore,
    post: MetaStore,
    bucket: String,
    key: String,
    u: UploadResult,
    vid: u64,
)
    requires
        pre.wf(),
        post.wf(),
        put_commit_post(pre, post, bucket, key, Some(u), vid),
    ensures
        post.has_bucket(bucket@),
        post.has_file(post.bucket_id_of(bucket@), key@),
        !post.file_at(post.bucket_id_of(bucket@), key@).current_version_is_delete_marker,
        post.file_at(post.bucket_id_of(bucket@), key@).current_version == vid,
        post.version_at(vid).file_data_id == Some(pre.next_id),
        post.data_at(pre.next_id).size == u.size,
        post.data_at(pre.next_id).md5 == u.md5,
        post.part_for(pre.next_id).backend_key == u.backend_ref,
        post.part_for(pre.next_id).start == 0,
        post.part_for(pre.next_id).end == u.size,
{
    let b0 = pre.bucket_idx(bucket@);
    assert(0 <= b0 < pre.buckets@.len() && pre.buckets@[b0].name@ == bucket@);
    assert(post.buckets@[b0].name@ == bucket@);
    assert(post.has_bucket(bucket@));
    let bid = pre.bucket_id_of(bucket@);
    assert(post.bucket_id_of(bucket@) == bid) by {
        let c = post.bucket_idx(bucket@);
        if c != b0 {
            assert(post.buckets@[c].name@ == bucket@ && post.buckets@[b0].name@ == bucket@);
            assert(pre.buckets@[c].name@ == post.buckets@[c].name@);
        }
    }
    let j1: int = if pre.has_file(bid, key@) {
        pre.file_idx(bid, key@)
    } else {
        post.files@.len() - 1
    };
    assert(0 <= j1 < post.files@.len() && post.files@[j1].bucket_id == bid && post.files@[j1].key@
        == key@ && post.files@[j1].current_version == vid
        && !post.files@[j1].current_version_is_delete_marker);
    assert(post.has_file(bid, key@));
    let c1 = post.file_idx(bid, key@);
    assert(c1 == j1) by {
        if c1 < j1 {
            assert(!(post.files@[c1].bucket_id == post.files@[j1].bucket_id && post.files@[c1].key@
                == post.files@[j1].key@));
        } else if j1 < c1 {
            assert(!(post.files@[j1].bucket_id == post.files@[c1].bucket_id && post.files@[j1].key@
                == post.files@[c1].key@));
        }
    }
    // the new version row
    let lv = post.file_versions@.len() - 1;
    assert(post.file_versions@[lv].id == vid && post.file_versions@[lv].file_data_id == Some(
        pre.next_id,
    ));
    assert(post.has_version(vid));
    let cv = post.version_idx(vid);
    assert(cv == lv) by {
        if cv < lv {
            assert(post.file_versions@[cv].id < post.file_versions@[lv].id);
        } else if lv < cv {
            assert(post.file_versions@[lv].id < post.file_versions@[cv].id);
        }
    }
    // the new blob row
    let ld = post.file_data@.len() - 1;
    assert(post.file_data@[ld].id == pre.next_id);
    assert(post.has_data(pre.next_id));
    let cd = post.data_idx(pre.next_id);
    assert(cd == ld) by {
        if cd < ld {
            assert(post.file_data@[cd].id != post.file_data@[ld].id);
        } else if ld < cd {
            assert(post.file_data@[ld].id != post.file_data@[cd].id);
        }
    }
    // the new location row
    let lp = post.file_data_parts@.len() - 1;
    assert(post.file_data_parts@[lp].file_data_id == pre.next_id);
    assert(post.has_part_for(pre.next_id));
    let cp = post.part_idx_for(pre.next_id);
    assert(cp == lp) by {
        if cp < lp {
            assert(post.file_data_parts@[cp].file_data_id != post.file_data_parts@[
                lp
            ].file_data_id);
        } else if lp < cp {
            assert(post.file_data_parts@[lp].file_data_id != post.file_data_parts@[
                cp
            ].file_data_id);
        }
    }
}

} // verus!
