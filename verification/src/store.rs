//! The token cache, modeled by its file contents.
//!
//! The store owns the cache contents as a value. The embedding
//! application reads the cache file into a store (treating a missing or
//! unreadable file as empty contents) and writes the contents back after
//! every save, replacing the file atomically; the store itself never
//! touches the file system.

use vstd::prelude::*;

verus! {

use crate::codec::lemma_record_round_trip;
use crate::codec::parse_record;
use crate::codec::parse_record_spec;
use crate::codec::ser_record;
use crate::codec::serialize_record;
use crate::token::TokenRecord;

/// File-backed token cache (see the module documentation).
pub struct TokenStore {
    contents: String,
}

impl View for TokenStore {
    type V = Seq<char>;

    closed spec fn view(&self) -> Seq<char> {
        self.contents@
    }
}

impl TokenStore {
    /// The record the contents hold, if any. Empty or unparseable
    /// contents hold none; that is never an error.
    pub open spec fn cached_record(self) -> Option<crate::token::TokenRecordView> {
        parse_record_spec(self@)
    }

    /// An empty store: cold start, or a missing or empty cache file.
    pub fn new() -> (s: Self)
        ensures
            s@ == Seq::<char>::empty(),
            s.cached_record() is None,
    {
        let s = TokenStore { contents: String::new() };
        proof {
            vstd::assert_seqs_equal!(s@ == Seq::<char>::empty());
        }
        s
    }

    /// A store holding the given cache-file contents.
    pub fn from_contents(contents: String) -> (s: Self)
        ensures
            s@ == contents@,
    {
        TokenStore { contents }
    }

    /// The contents to persist to the cache file.
    pub fn contents(&self) -> (r: &String)
        ensures
            r@ == self@,
    {
        &self.contents
    }

    /// Load the cached record: `Some` exactly when the contents hold one.
    pub fn load(&self) -> (r: Option<TokenRecord>)
        ensures
            match r {
                Some(rec) => self.cached_record() == Some(rec@),
                None => self.cached_record() is None,
            },
    {
        parse_record(self.contents.as_str())
    }

    /// Replace the contents with the serialization of `rec`: a full
    /// replace, never a partial mutation. Loading afterwards gives back
    /// exactly the saved record (the round-trip law).
    pub fn save(&mut self, rec: &TokenRecord)
        requires
            rec@.populated(),
        ensures
            final(self)@ == ser_record(rec@),
            final(self).cached_record() == Some(rec@),
    {
        let s = serialize_record(rec);
        proof {
            lemma_record_round_trip(rec@);
        }
        self.contents = s;
    }

    /// Validity of a record at time `now` (seconds): the store owns the
    /// "is this token still usable" predicate. True exactly when an
    /// expiry is present and lies strictly after `now` plus the safety
    /// margin.
    pub fn is_valid(rec: &TokenRecord, now: i64) -> (r: bool)
        ensures
            r == rec@.valid_at(now as int),
    {
        rec.is_valid_at(now)
    }
}

} // verus!
