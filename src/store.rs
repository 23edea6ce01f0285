use vstd::prelude::*;
use vstd::string::StringExecFns;
use crate::codec::{decode, decoded, encode, Payload};
use crate::error::TransformationError;

verus! {

#[verifier::external_type_specification]
#[verifier::external_body]
pub struct ExDb(sled::Db);

/// Relies on `sled::Tree::get`: looks `key`'s UTF-8 bytes up, giving the
/// stored bytes, nothing where none are stored, or the store's failure in words.
#[verifier::external_body]
fn store_get(db: &sled::Db, key: &String) -> (r: Result<Option<Vec<u8>>, String>) {
    match db.get(key.as_bytes()) {
        Ok(found) => Ok(found.map(|v| v.to_vec())),
        Err(e) => Err(e.to_string()),
    }
}

/// Relies on `sled::Tree::insert`: stores `value` under `key`'s UTF-8 bytes,
/// replacing what was there, or gives the store's failure in words.
#[verifier::external_body]
fn store_insert(db: &sled::Db, key: &String, value: Vec<u8>) -> (r: Result<(), String>) {
    match db.insert(key.as_bytes(), value) {
        Ok(_) => Ok(()),
        Err(e) => Err(e.to_string()),
    }
}

/// A payload together with the key it is stored under.
pub struct Transformable<T> {
    pub id: String,
    pub data: T,
}

/// How a lookup in the store came out: the failure in words, or the bytes
/// stored under the key, if any.
pub type Lookup = Result<Option<Vec<u8>>, String>;

impl<T: Payload> Transformable<T> {
    /// Wraps `data` under the key `id`.
    pub fn new(id: String, data: T) -> (r: Self)
        ensures
            r.id == id,
            r.data == data,
    {
        Transformable { id, data }
    }

    /// The key and the bytes that `save` stores: only the payload is encoded,
    /// the key is given back by the lookup on `load`.
    pub fn to_stored(&self) -> (r: (String, Vec<u8>))
        ensures
            r.0@ == self.id@,
            r.1@ == T::encoding(self.data@),
            T::encodable(self.data@),
    {
        (self.id.clone(), encode(&self.data))
    }

    /// Stores the encoded payload under `id`, replacing what was there.
    pub fn save(&self, db: &sled::Db) -> (r: Result<(), TransformationError>)
        ensures
            r matches Err(e) ==> e is DatabaseError,
    {
        let (key, bytes) = self.to_stored();
        match store_insert(db, &key, bytes) {
            Ok(()) => Ok(()),
            Err(detail) => Err(TransformationError::DatabaseError(detail)),
        }
    }

    /// The record that a lookup of `id` yields: the store's failure is a
    /// `DatabaseError`, a missing key `NotFound(id)`, bytes that do not decode
    /// `DeserializationFailed`, and decoded bytes the payload under `id`.
    pub fn from_lookup(id: &String, got: Lookup) -> (r: Result<Self, TransformationError>)
        ensures
            match got {
                Err(d) => r == Err::<Self, _>(TransformationError::DatabaseError(d)),
                Ok(None) => r matches Err(TransformationError::NotFound(k)) && k@ == id@,
                Ok(Some(b)) => match decoded::<T>(b@) {
                    Some(v) => r matches Ok(t) && t.id@ == id@ && t.data@ == v,
                    None => r matches Err(TransformationError::DeserializationFailed(_)),
                },
            },
    {
        match got {
            Err(detail) => Err(TransformationError::DatabaseError(detail)),
            Ok(None) => Err(TransformationError::NotFound(id.clone())),
            Ok(Some(bytes)) => match decode::<T>(&bytes) {
                Some(data) => Ok(Transformable { id: id.clone(), data }),
                None => Err(
                    TransformationError::DeserializationFailed(
                        String::from_str("stored bytes do not decode"),
                    ),
                ),
            },
        }
    }

    /// Loads the payload stored under `id`.
    pub fn load(db: &sled::Db, id: &String) -> (r: Result<Self, TransformationError>)
        ensures
            r matches Ok(t) ==> t.id@ == id@,
            r matches Err(TransformationError::NotFound(k)) ==> k@ == id@,
            r is Err ==> r matches Err(
                TransformationError::DatabaseError(_)
                | TransformationError::NotFound(_)
                | TransformationError::DeserializationFailed(_),
            ),
    {
        let got = store_get(db, id);
        Self::from_lookup(id, got)
    }
}

} // verus!
