//! The errors of the application: one enum per layer, and the error that the
//! front end receives, with its stable code and its message.

use vstd::prelude::*;
use crate::memory::service::MemoryError;
use crate::review::service::ReviewError;
use crate::text::{decimal, i64_text, u32_text};

verus! {

/// A failure of the database layer (the outside error is kept as its text).
#[derive(Clone, Debug, PartialEq, Eq)]
pub enum DbError {
    Sqlite(String),
    Io(String),
}

/// A failure of the dictionary layer.
#[derive(Clone, Debug, PartialEq, Eq)]
pub enum DictionaryError {
    Sqlite(String),
    /// A stored JSON list could not be read.
    Data(String),
    /// The import source is not an ECDICT database.
    InvalidSource(String),
}

/// The error of every front-end command.
#[derive(Clone, Debug, PartialEq, Eq)]
pub enum AppError {
    Db(DbError),
    Dictionary(DictionaryError),
    Memory(MemoryError),
    Review(ReviewError),
    LockPoisoned,
    TaskJoin(String),
    Network(String),
    Io(String),
}

/// The stable code of an error, sent next to its message.
pub open spec fn code_of(e: AppError) -> Seq<char> {
    match e {
        AppError::Db(_) => "db"@,
        AppError::Dictionary(_) => "dictionary"@,
        AppError::Memory(_) => "memory"@,
        AppError::Review(_) => "review"@,
        AppError::LockPoisoned => "lock_poisoned"@,
        AppError::TaskJoin(_) => "task_join"@,
        AppError::Network(_) => "network"@,
        AppError::Io(_) => "io"@,
    }
}

/// The code of an error (see `code_of`).
pub fn error_code(e: &AppError) -> (r: &'static str)
    ensures
        r@ == code_of(*e),
{
    match e {
        AppError::Db(_) => "db",
        AppError::Dictionary(_) => "dictionary",
        AppError::Memory(_) => "memory",
        AppError::Review(_) => "review",
        AppError::LockPoisoned => "lock_poisoned",
        AppError::TaskJoin(_) => "task_join",
        AppError::Network(_) => "network",
        AppError::Io(_) => "io",
    }
}

pub open spec fn db_text(e: DbError) -> Seq<char> {
    match e {
        DbError::Sqlite(m) => "sqlite error: "@ + m@,
        DbError::Io(m) => "io error: "@ + m@,
    }
}

pub open spec fn dictionary_text(e: DictionaryError) -> Seq<char> {
    match e {
        DictionaryError::Sqlite(m) => "sqlite error: "@ + m@,
        DictionaryError::Data(m) => "dictionary data error: "@ + m@,
        DictionaryError::InvalidSource(m) => "invalid dictionary source: "@ + m@,
    }
}

pub open spec fn memory_text(e: MemoryError) -> Seq<char> {
    match e {
        MemoryError::Sqlite(m) => "sqlite error: "@ + m@,
        MemoryError::EncounterNotFound(id) => "encounter "@ + decimal(id as int) + " not found"@,
        MemoryError::NotLatestEncounter(id) => "encounter "@ + decimal(id as int)
            + " is not the latest for its word"@,
        MemoryError::NotAnEscalation { from, to } => "comprehension cannot change from "@ + from@
            + " to "@ + to@,
        MemoryError::CorruptEvent(m) => "corrupt memory event: "@ + m@,
    }
}

pub open spec fn review_text(e: ReviewError) -> Seq<char> {
    match e {
        ReviewError::Sqlite(m) => "sqlite error: "@ + m@,
        ReviewError::Dictionary(d) => "dictionary error: "@ + dictionary_text(d),
        ReviewError::Memory(m) => "memory error: "@ + memory_text(m),
        ReviewError::NotFound(id) => "review "@ + decimal(id as int) + " not found"@,
        ReviewError::AlreadyCompleted(id) => "review "@ + decimal(id as int) + " already completed"@,
        ReviewError::InvalidHint(n) => "invalid hint number "@ + decimal(n as int),
        ReviewError::UnexpectedHint { requested, expected } => "expected hint "@ + decimal(
            expected as int,
        ) + ", got "@ + decimal(requested as int),
        ReviewError::NoWordData => "word data unavailable for review"@,
    }
}

/// The message of an error, as the front end shows it.
pub open spec fn message_of(e: AppError) -> Seq<char> {
    match e {
        AppError::Db(d) => "database error: "@ + db_text(d),
        AppError::Dictionary(d) => "dictionary error: "@ + dictionary_text(d),
        AppError::Memory(m) => "memory error: "@ + memory_text(m),
        AppError::Review(r) => "review error: "@ + review_text(r),
        AppError::LockPoisoned => "the database lock was poisoned"@,
        AppError::TaskJoin(m) => "background task failed: "@ + m@,
        AppError::Network(m) => "network error: "@ + m@,
        AppError::Io(m) => "I/O error: "@ + m@,
    }
}

fn joined(a: &str, b: &str) -> (r: String)
    ensures
        r@ == a@ + b@,
{
    let mut s = a.to_string();
    s.append(b);
    s
}

fn joined3(a: &str, b: &str, c: &str) -> (r: String)
    ensures
        r@ == a@ + b@ + c@,
{
    let mut s = a.to_string();
    s.append(b);
    s.append(c);
    s
}

/// The message of a database error.
pub fn db_message(e: &DbError) -> (r: String)
    ensures
        r@ == db_text(*e),
{
    match e {
        DbError::Sqlite(m) => joined("sqlite error: ", m.as_str()),
        DbError::Io(m) => joined("io error: ", m.as_str()),
    }
}

/// The message of a dictionary error.
pub fn dictionary_message(e: &DictionaryError) -> (r: String)
    ensures
        r@ == dictionary_text(*e),
{
    match e {
        DictionaryError::Sqlite(m) => joined("sqlite error: ", m.as_str()),
        DictionaryError::Data(m) => joined("dictionary data error: ", m.as_str()),
        DictionaryError::InvalidSource(m) => joined("invalid dictionary source: ", m.as_str()),
    }
}

/// The message of a memory error.
pub fn memory_message(e: &MemoryError) -> (r: String)
    ensures
        r@ == memory_text(*e),
{
    match e {
        MemoryError::Sqlite(m) => joined("sqlite error: ", m.as_str()),
        MemoryError::EncounterNotFound(id) => joined3("encounter ", i64_text(*id).as_str(), " not found"),
        MemoryError::NotLatestEncounter(id) => joined3(
            "encounter ",
            i64_text(*id).as_str(),
            " is not the latest for its word",
        ),
        MemoryError::NotAnEscalation { from, to } => {
            let mut s = joined3("comprehension cannot change from ", from.as_str(), " to ");
            s.append(to.as_str());
            s
        },
        MemoryError::CorruptEvent(m) => joined("corrupt memory event: ", m.as_str()),
    }
}

/// The message of a review error.
pub fn review_message(e: &ReviewError) -> (r: String)
    ensures
        r@ == review_text(*e),
{
    match e {
        ReviewError::Sqlite(m) => joined("sqlite error: ", m.as_str()),
        ReviewError::Dictionary(d) => joined("dictionary error: ", dictionary_message(d).as_str()),
        ReviewError::Memory(m) => joined("memory error: ", memory_message(m).as_str()),
        ReviewError::NotFound(id) => joined3("review ", i64_text(*id).as_str(), " not found"),
        ReviewError::AlreadyCompleted(id) => joined3("review ", i64_text(*id).as_str(), " already completed"),
        ReviewError::InvalidHint(n) => joined("invalid hint number ", u32_text(*n).as_str()),
        ReviewError::UnexpectedHint { requested, expected } => {
            let mut s = joined3("expected hint ", u32_text(*expected).as_str(), ", got ");
            s.append(u32_text(*requested).as_str());
            s
        },
        ReviewError::NoWordData => "word data unavailable for review".to_string(),
    }
}

impl AppError {
    /// The message of the error (see `message_of`).
    pub fn message(&self) -> (r: String)
        ensures
            r@ == message_of(*self),
    {
        match self {
            AppError::Db(d) => joined("database error: ", db_message(d).as_str()),
            AppError::Dictionary(d) => joined("dictionary error: ", dictionary_message(d).as_str()),
            AppError::Memory(m) => joined("memory error: ", memory_message(m).as_str()),
            AppError::Review(r) => joined("review error: ", review_message(r).as_str()),
            AppError::LockPoisoned => "the database lock was poisoned".to_string(),
            AppError::TaskJoin(m) => joined("background task failed: ", m.as_str()),
            AppError::Network(m) => joined("network error: ", m.as_str()),
            AppError::Io(m) => joined("I/O error: ", m.as_str()),
        }
    }
}

} // verus!
