//! The append-only diagnostic log. The engine only ever appends to it; no
//! entry is updated or removed.

use vstd::prelude::*;
use vstd::string::StringExecFns;

use crate::seq_util::lemma_take_push;
use crate::store::Store;

verus! {

/// One diagnostic entry.
pub struct LogDto {
    pub id: Option<i64>,
    pub message: String,
    pub error_type: ErrorType,
    pub created_at: Option<i64>,
}

/// The severity of a diagnostic entry.
#[derive(Debug, Clone, Copy, PartialEq, Eq, Structural)]
pub enum ErrorType {
    Info,
    Error,
}

impl ErrorType {
    /// The stored textual form of this severity.
    pub open spec fn text_view(self) -> Seq<char> {
        match self {
            ErrorType::Info => "info"@,
            ErrorType::Error => "error"@,
        }
    }

    /// Write this severity in its stored textual form.
    pub fn to_text(self) -> (r: String)
        ensures
            r@ == self.text_view(),
    {
        match self {
            ErrorType::Info => String::from_str("info"),
            ErrorType::Error => String::from_str("error"),
        }
    }

    /// Read a severity back from its stored textual form; any other text is
    /// rejected rather than taken for a severity.
    pub fn from_text(s: &str) -> (r: Option<ErrorType>)
        ensures
            r == Some(ErrorType::Info) <==> s@ == "info"@,
            r == Some(ErrorType::Error) <==> s@ == "error"@,
            r is None <==> (s@ != "info"@ && s@ != "error"@),
    {
        proof {
            reveal_strlit("info");
            reveal_strlit("error");
            assert("info"@.len() == 4);
            assert("error"@.len() == 5);
        }
        let info = "info";
        let error = "error";
        if crate::text::str_eq(s, info) {
            Some(ErrorType::Info)
        } else if crate::text::str_eq(s, error) {
            Some(ErrorType::Error)
        } else {
            None
        }
    }
}

impl Clone for LogDto {
    fn clone(&self) -> (r: Self)
        ensures
            r == *self,
    {
        LogDto {
            id: self.id,
            message: self.message.clone(),
            error_type: self.error_type,
            created_at: self.created_at,
        }
    }
}

impl LogDto {
    /// Build a diagnostic entry; the id and creation stamp are left to the
    /// storage adapter.
    pub fn new(message: &str, error_type: ErrorType) -> (r: Self)
        ensures
            r.id is None,
            r.message@ == message@,
            r.error_type == error_type,
            r.created_at is None,
    {
        Self { id: None, message: message.to_owned(), error_type, created_at: None }
    }

    /// Append an informational entry.
    pub fn info(store: &mut Store, message: &str)
        requires
            old(store).wf(),
        ensures
            final(store).wf(),
            final(store).logs@.len() == old(store).logs@.len() + 1,
            final(store).logs@ == old(store).logs@.push(
                final(store).logs@[old(store).logs@.len() as int],
            ),
            final(store).logs@.last().message@ == message@,
            final(store).logs@.last().error_type == ErrorType::Info,
            final(store).logs@.last().id is None,
            final(store).logs@.last().created_at is None,
            final(store).guilds@ == old(store).guilds@,
            final(store).summoners@ == old(store).summoners@,
            final(store).games@ == old(store).games@,
            final(store).active_games@ == old(store).active_games@,
    {
        Self::new(message, ErrorType::Info).create(store);
    }

    /// Append an error entry.
    pub fn error(store: &mut Store, message: &str)
        requires
            old(store).wf(),
        ensures
            final(store).wf(),
            final(store).logs@.len() == old(store).logs@.len() + 1,
            final(store).logs@ == old(store).logs@.push(
                final(store).logs@[old(store).logs@.len() as int],
            ),
            final(store).logs@.last().message@ == message@,
            final(store).logs@.last().error_type == ErrorType::Error,
            final(store).logs@.last().id is None,
            final(store).logs@.last().created_at is None,
            final(store).guilds@ == old(store).guilds@,
            final(store).summoners@ == old(store).summoners@,
            final(store).games@ == old(store).games@,
            final(store).active_games@ == old(store).active_games@,
    {
        Self::new(message, ErrorType::Error).create(store);
    }

    /// Append this entry to the diagnostic log.
    pub fn create(self, store: &mut Store)
        requires
            old(store).wf(),
        ensures
            final(store).wf(),
            final(store).logs@ == old(store).logs@.push(self),
            final(store).guilds@ == old(store).guilds@,
            final(store).summoners@ == old(store).summoners@,
            final(store).games@ == old(store).games@,
            final(store).active_games@ == old(store).active_games@,
    {
        store.logs.push(self);
    }

    /// Every diagnostic entry, in append order.
    pub fn get_all(store: &Store) -> (r: Vec<LogDto>)
        ensures
            r@ == store.logs@,
    {
        let n = store.logs.len();
        let mut r: Vec<LogDto> = Vec::new();
        let mut i: usize = 0;
        while i < n
            invariant
                n == store.logs@.len(),
                i <= n,
                r@ == store.logs@.take(i as int),
            decreases n - i,
        {
            r.push(store.logs[i].clone());
            proof {
                lemma_take_push(store.logs@, i as int);
            }
            i += 1;
        }
        proof {
            assert(store.logs@.take(n as int) =~= store.logs@);
        }
        r
    }
}

} // verus!
