use vstd::prelude::*;
use crate::codec::{
    decode_record, decode_spec, encode_record, lemma_decode_record_of, object_result, record_of,
    Object, ObjectView,
};
use crate::error::{Error, ErrorView};
use crate::hash::{is_object_id, object_id, object_id_spec, object_path, object_path_spec};
use crate::kind::Kind;
use crate::zlib::{deflate, inflate, zlib_deflate, zlib_inflate};

verus! {

/// What writing an object comes to: its hash in hex, the path below the
/// store's root where it belongs, and the compressed record to place there.
#[derive(Debug)]
pub struct Stored {
    pub hash: Vec<u8>,
    pub path: Vec<u8>,
    pub data: Vec<u8>,
}

/// What is to be stored, as contracts see it.
pub struct StoredView {
    pub hash: Seq<u8>,
    pub path: Seq<u8>,
    pub data: Seq<u8>,
}

impl View for Stored {
    type V = StoredView;

    open spec fn view(&self) -> StoredView {
        StoredView { hash: self.hash@, path: self.path@, data: self.data@ }
    }
}

/// The view of a result, on either side.
pub open spec fn stored_result(r: Result<Stored, Error>) -> Result<StoredView, ErrorView> {
    match r {
        Ok(s) => Ok(s@),
        Err(e) => Err(e@),
    }
}

/// What `put` gives for a kind and a content: the hash of the framed record,
/// the path that the hash maps to, and the record compressed.
pub open spec fn put_spec(kind: Kind, content: Seq<u8>) -> Result<StoredView, ErrorView> {
    let record = record_of(kind, content);
    match zlib_deflate(record) {
        None => Err(ErrorView::IoFailure),
        Some(data) => Ok(
            StoredView {
                hash: object_id_spec(record),
                path: object_path_spec(object_id_spec(record)),
                data,
            },
        ),
    }
}

/// What `get` gives for what was found at an object's path: nothing there is
/// `NotFound`, a broken stream an I/O failure, and the rest is the codec's.
pub open spec fn get_spec(file: Option<Seq<u8>>) -> Result<ObjectView, ErrorView> {
    match file {
        None => Err(ErrorView::NotFound),
        Some(data) => match zlib_inflate(data) {
            None => Err(ErrorView::IoFailure),
            Some(raw) => decode_spec(raw),
        },
    }
}

/// The files of a store, by path, after an object was put.
pub open spec fn store_after_put(
    files: Map<Seq<u8>, Seq<u8>>,
    kind: Kind,
    content: Seq<u8>,
) -> Map<Seq<u8>, Seq<u8>> {
    match put_spec(kind, content) {
        Ok(stored) => files.insert(stored.path, stored.data),
        Err(_) => files,
    }
}

/// Builds what is to be stored from a hash and the compressed record, or
/// reports that compressing failed.
pub fn place(hash: Vec<u8>, compressed: Option<Vec<u8>>) -> (r: Result<Stored, Error>)
    requires
        is_object_id(hash@),
    ensures
        stored_result(r) == (match compressed {
            None => Err::<StoredView, ErrorView>(ErrorView::IoFailure),
            Some(data) => Ok::<StoredView, ErrorView>(
                StoredView { hash: hash@, path: object_path_spec(hash@), data: data@ },
            ),
        }),
{
    match compressed {
        None => Err(Error::IoFailure),
        Some(data) => {
            let path = object_path(hash.as_slice());
            Ok(Stored { hash, path, data })
        },
    }
}

/// Encodes an object for the store. `length` must be the content's length.
/// What comes back, read through `get`, is the same kind and content.
pub fn put(kind: Kind, length: u64, content: &[u8]) -> (r: Result<Stored, Error>)
    ensures
        length != content@.len() ==> r is Err && r->Err_0@ == ErrorView::SizeMismatch,
        length == content@.len() ==> stored_result(r) == put_spec(kind, content@),
        r matches Ok(stored) ==> is_object_id(stored.hash@) && get_spec(Some(stored.data@))
            == Ok::<ObjectView, ErrorView>(
            ObjectView { kind, expected_size: length, content: content@ },
        ),
{
    let record = match encode_record(kind, length, content) {
        Err(e) => { return Err(e); },
        Ok(record) => record,
    };
    let hash = object_id(record.as_slice());
    let compressed = deflate(record.as_slice());
    proof {
        lemma_decode_record_of(kind, content@);
    }
    place(hash, compressed)
}

/// The hash that `put` would give, with nothing kept: the same work, and the
/// compressed record is dropped.
pub fn hash_object(kind: Kind, length: u64, content: &[u8]) -> (r: Result<Vec<u8>, Error>)
    ensures
        length != content@.len() ==> r is Err && r->Err_0@ == ErrorView::SizeMismatch,
        length == content@.len() ==> (match put_spec(kind, content@) {
            Ok(stored) => r is Ok && r->Ok_0@ == stored.hash,
            Err(e) => r is Err && r->Err_0@ == e,
        }),
        r matches Ok(hash) ==> is_object_id(hash@),
{
    match put(kind, length, content) {
        Ok(stored) => Ok(stored.hash),
        Err(e) => Err(e),
    }
}

/// Decodes what was found at an object's path; `None` says that nothing was
/// there.
pub fn get(file: Option<&[u8]>) -> (r: Result<Object, Error>)
    ensures
        object_result(r) == get_spec(
            match file {
                Some(data) => Some(data@),
                None => None,
            },
        ),
        r matches Ok(o) ==> o.wf(),
{
    match file {
        None => Err(Error::NotFound),
        Some(data) => match inflate(data) {
            None => Err(Error::IoFailure),
            Some(raw) => decode_record(raw.as_slice()),
        },
    }
}

impl Object {
    /// Reads an object from the compressed bytes of its file; `None` says that
    /// no file was there.
    pub fn read_object(file: Option<&[u8]>) -> (r: Result<Object, Error>)
        ensures
            object_result(r) == get_spec(
                match file {
                    Some(data) => Some(data@),
                    None => None,
                },
            ),
            r matches Ok(o) ==> o.wf(),
    {
        get(file)
    }
}

/// Whatever decompresses to the record of a kind and a content is read back
/// as that kind, the content's length and the content.
pub proof fn lemma_get_of_record(kind: Kind, content: Seq<u8>, data: Seq<u8>)
    requires
        content.len() <= u64::MAX,
        zlib_inflate(data) == Some(record_of(kind, content)),
    ensures
        get_spec(Some(data)) == Ok::<ObjectView, ErrorView>(
            ObjectView { kind, expected_size: content.len() as u64, content },
        ),
{
    lemma_decode_record_of(kind, content);
}

/// Putting the same kind and content a second time leaves the files as the
/// first time left them.
pub proof fn lemma_put_idempotent(files: Map<Seq<u8>, Seq<u8>>, kind: Kind, content: Seq<u8>)
    ensures
        store_after_put(store_after_put(files, kind, content), kind, content) == store_after_put(
            files,
            kind,
            content,
        ),
{
    let once = store_after_put(files, kind, content);
    assert(store_after_put(once, kind, content) =~= once);
}

} // verus!
