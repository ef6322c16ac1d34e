//! The durable FIFO event queue: a single-file embedded relational store
//! holding one authenticated-encrypted, compressed payload per record.
//!
//! The store is modelled by the sequence of its rows in query order —
//! ascending `(created_at, id)` — plus the identifier its autoincrement
//! column hands out next. Every statement the queue issues is wrapped in a
//! trusted item whose contract speaks over that model.
use vstd::prelude::*;
use vstd::math::min;
use crate::crypto::CryptoError;
use crate::crypto::KEY_LEN;
use crate::crypto::ZSTD_LEVEL;
use crate::crypto::open_record;
use crate::crypto::zstd_frame;
use crate::crypto::zstd_ok;
use crate::crypto::decrypt_decompress;
use crate::crypto::encrypt_compress;
use vstd::string::StrSliceExecFns;
use vstd::string::StringSliceAdditionalSpecFns;

verus! {

#[verifier::external_type_specification]
#[verifier::external_body]
pub struct ExConnection(rusqlite::Connection);

#[verifier::external_type_specification]
#[verifier::external_body]
pub struct ExSqlError(rusqlite::Error);

/// The rows `(id, created_at, payload)` of the events table, in query
/// order: ascending `created_at`, ties broken by ascending `id`.
pub uninterp spec fn db_events(c: rusqlite::Connection) -> Seq<(i64, i64, Seq<u8>)>;

/// The identifier the autoincrement column assigns to the next inserted
/// row.
pub uninterp spec fn db_next_id(c: rusqlite::Connection) -> int;

/// Strict query order on rows: by `created_at`, ties by `id`.
pub open spec fn row_lt(a: (i64, i64, Seq<u8>), b: (i64, i64, Seq<u8>)) -> bool {
    a.1 < b.1 || (a.1 == b.1 && a.0 < b.0)
}

/// The invariants the store keeps: rows stand in strict query order, every
/// identifier is unique, and all of them are below the next one.
pub open spec fn db_wf(s: Seq<(i64, i64, Seq<u8>)>, next: int) -> bool {
    &&& forall|i: int, j: int| 0 <= i < j < s.len() ==> row_lt(s[i], s[j])
    &&& forall|i: int, j: int| 0 <= i < s.len() && 0 <= j < s.len() && i != j ==> s[i].0 != s[j].0
    &&& forall|i: int| 0 <= i < s.len() ==> (#[trigger] s[i]).0 < next
}

/// Where a fresh row with this `created_at` lands in query order, given
/// that its identifier exceeds every present one: after all rows at or
/// below its timestamp, before all later ones.
pub open spec fn insert_pos(s: Seq<(i64, i64, Seq<u8>)>, created_at: i64) -> int
    decreases s.len(),
{
    if s.len() == 0 || s[0].1 > created_at {
        0
    } else {
        1 + insert_pos(s.drop_first(), created_at)
    }
}

/// The rows that survive deleting a set of identifiers, in unchanged
/// order.
pub open spec fn remove_ids(s: Seq<(i64, i64, Seq<u8>)>, ids: Seq<i64>) -> Seq<(i64, i64, Seq<u8>)>
    decreases s.len(),
{
    if s.len() == 0 {
        Seq::empty()
    } else if ids.contains(s[0].0) {
        remove_ids(s.drop_first(), ids)
    } else {
        seq![s[0]] + remove_ids(s.drop_first(), ids)
    }
}

/// Relies on `rusqlite::Connection::open` and the schema statements, over
/// a database file the agent owns exclusively: the events table keeps
/// rows in strict query order (the integer primary key is unique) and its
/// autoincrement column never reissues an identifier — not even after
/// deletes — so every present identifier is below the next one.
#[verifier::external_body]
fn db_open(path: &str) -> (r: Result<rusqlite::Connection, rusqlite::Error>)
    ensures
        r matches Ok(c) ==> db_wf(db_events(c), db_next_id(c)),
{
    let conn = rusqlite::Connection::open(path)?;
    conn.pragma_update(None, "journal_mode", "WAL")?;
    conn.pragma_update(None, "synchronous", "NORMAL")?;
    conn.execute_batch(
        "CREATE TABLE IF NOT EXISTS events (
            id INTEGER PRIMARY KEY AUTOINCREMENT,
            created_at INTEGER NOT NULL,
            attempts INTEGER NOT NULL DEFAULT 0,
            payload BLOB NOT NULL
        );
        CREATE INDEX IF NOT EXISTS idx_events_created ON events(created_at);",
    )?;
    Ok(conn)
}

/// Relies on `INSERT` under an autoincrement primary key: the fresh row
/// gets the next identifier, lands at its query-order position, and a
/// failed statement leaves the store unchanged.
#[verifier::external_body]
fn db_insert(conn: &mut rusqlite::Connection, created_at: i64, payload: &Vec<u8>) -> (r: Result<
    i64,
    rusqlite::Error,
>)
    ensures
        r matches Ok(id) ==> id == db_next_id(*old(conn)) && db_next_id(*final(conn)) == db_next_id(
            *old(conn),
        ) + 1 && db_events(*final(conn)) == db_events(*old(conn)).insert(
            insert_pos(db_events(*old(conn)), created_at),
            (id, created_at, payload@),
        ),
        r is Err ==> db_events(*final(conn)) == db_events(*old(conn)) && db_next_id(*final(conn))
            == db_next_id(*old(conn)),
{
    conn.execute(
        "INSERT INTO events(created_at, attempts, payload) VALUES (?1, 0, ?2)",
        (created_at, payload.as_slice()),
    )?;
    Ok(conn.last_insert_rowid())
}

/// Relies on `SELECT COUNT(1)`: the number of rows.
#[verifier::external_body]
fn db_len(conn: &rusqlite::Connection) -> (r: Result<i64, rusqlite::Error>)
    ensures
        r matches Ok(n) ==> n == db_events(*conn).len(),
{
    let mut stmt = conn.prepare("SELECT COUNT(1) FROM events")?;
    let n: i64 = stmt.query_row([], |row| row.get(0))?;
    Ok(n)
}

/// Relies on `SELECT ... ORDER BY created_at ASC, id ASC LIMIT n`: the
/// identifiers and payloads of the first rows in query order.
#[verifier::external_body]
fn db_fetch_asc(conn: &rusqlite::Connection, limit: usize) -> (r: Result<
    Vec<(i64, Vec<u8>)>,
    rusqlite::Error,
>)
    ensures
        r matches Ok(v) ==> v@.len() == min(limit as int, db_events(*conn).len() as int)
            && (forall|i: int|
            0 <= i < v@.len() ==> (#[trigger] v@[i]).0 == db_events(*conn)[i].0 && v@[i].1@
                == db_events(*conn)[i].2),
{
    let mut stmt = conn.prepare(
        "SELECT id, payload FROM events ORDER BY created_at ASC, id ASC LIMIT ?1",
    )?;
    let rows = stmt.query_map([limit as i64], |row| Ok((row.get(0)?, row.get(1)?)))?;
    let mut out = Vec::new();
    for r in rows {
        out.push(r?);
    }
    Ok(out)
}

/// Relies on `SELECT ... ORDER BY created_at DESC, id DESC LIMIT n`: the
/// payloads of the last rows, most recent first.
#[verifier::external_body]
fn db_fetch_desc(conn: &rusqlite::Connection, limit: usize) -> (r: Result<
    Vec<Vec<u8>>,
    rusqlite::Error,
>)
    ensures
        r matches Ok(v) ==> v@.len() == min(limit as int, db_events(*conn).len() as int)
            && (forall|i: int|
            0 <= i < v@.len() ==> (#[trigger] v@[i])@ == db_events(*conn)[db_events(
                *conn,
            ).len() - 1 - i].2),
{
    let mut stmt = conn.prepare(
        "SELECT payload FROM events ORDER BY created_at DESC, id DESC LIMIT ?1",
    )?;
    let rows = stmt.query_map([limit as i64], |row| row.get::<_, Vec<u8>>(0))?;
    let mut out = Vec::new();
    for r in rows {
        out.push(r?);
    }
    Ok(out)
}

/// Relies on `DELETE ... WHERE id = ?` inside one transaction: all the
/// named rows go, or — on any failure — none of them; other rows and the
/// autoincrement column stay untouched.
#[verifier::external_body]
fn db_delete_ids(conn: &mut rusqlite::Connection, ids: &Vec<i64>) -> (r: Result<
    usize,
    rusqlite::Error,
>)
    ensures
        r matches Ok(n) ==> n == ids@.len() && db_events(*final(conn)) == remove_ids(
            db_events(*old(conn)),
            ids@,
        ) && db_next_id(*final(conn)) == db_next_id(*old(conn)),
        r is Err ==> db_events(*final(conn)) == db_events(*old(conn)) && db_next_id(*final(conn))
            == db_next_id(*old(conn)),
{
    let mut count: usize = 0;
    let tx = conn.unchecked_transaction()?;
    {
        let mut stmt = tx.prepare("DELETE FROM events WHERE id = ?1")?;
        for id in ids.iter() {
            stmt.execute([*id])?;
            count += 1;
        }
    }
    tx.commit()?;
    Ok(count)
}

/// Why a queue operation failed.
#[derive(Clone, Copy, Debug, PartialEq, Eq, Structural)]
pub enum QueueError {
    /// The symmetric key does not have the required length.
    BadKey,
    /// The device identifier is too long to bind as associated data.
    BadDevice,
    /// The storage engine refused the statement.
    Storage,
    /// A payload refused to seal or open; never silently discarded.
    Crypto(CryptoError),
}

/// The encrypted event queue: one open connection, the sealing key and the
/// device-bound associated data.
pub struct Queue {
    conn: rusqlite::Connection,
    key: Vec<u8>,
    aad: Vec<u8>,
}

impl Queue {
    /// The rows of the store, in query order.
    pub closed spec fn view(&self) -> Seq<(i64, i64, Seq<u8>)> {
        db_events(self.conn)
    }

    /// The identifier the next enqueued record receives.
    pub closed spec fn next_id(&self) -> int {
        db_next_id(self.conn)
    }

    /// The sealing key.
    pub closed spec fn key_view(&self) -> Seq<u8> {
        self.key@
    }

    /// The associated data every payload is bound to.
    pub closed spec fn aad_view(&self) -> Seq<u8> {
        self.aad@
    }

    /// The queue's invariant: a well-formed store under a full-length key.
    pub closed spec fn wf(&self) -> bool {
        &&& db_wf(db_events(self.conn), db_next_id(self.conn))
        &&& self.key@.len() == KEY_LEN
        &&& self.aad@.len() <= 0xffff_ffff
    }

    /// Opens (creating if absent) the queue at a database path, sealing
    /// under the given key with the device identifier as associated data.
    pub fn open(db_path: &str, key: Vec<u8>, device_id: &str) -> (r: Result<Queue, QueueError>)
        ensures
            r matches Ok(q) ==> q.wf() && q.key_view() == key@ && q.aad_view()
                == device_id.spec_bytes(),
            key@.len() != KEY_LEN ==> r == Err::<Queue, QueueError>(QueueError::BadKey),
    {
        if key.len() != KEY_LEN {
            return Err(QueueError::BadKey);
        }
        let aad = device_id.as_bytes_vec();
        if aad.len() > 0xffff_ffffusize {
            return Err(QueueError::BadDevice);
        }
        match db_open(db_path) {
            Ok(conn) => Ok(Queue { conn, key, aad }),
            Err(_) => Err(QueueError::Storage),
        }
    }

    /// Seals one plaintext and appends it to the store with the given
    /// timestamp. The fresh record carries the next identifier, opens back
    /// to the plaintext, and stands at its query-order position — at the
    /// very end whenever the clock did not step backwards. A sealing
    /// failure is reported exactly when compression refuses the plaintext;
    /// any other failure is the storage engine's and leaves the store
    /// unchanged.
    pub fn enqueue_json(&mut self, json: &Vec<u8>, now_ms: u64) -> (r: Result<i64, QueueError>)
        requires
            old(self).wf(),
            now_ms <= i64::MAX,
        ensures
            final(self).wf(),
            final(self).key_view() == old(self).key_view(),
            final(self).aad_view() == old(self).aad_view(),
            (r matches Err(e) && e matches QueueError::Crypto(_)) <==> (!zstd_ok(
                json@,
                ZSTD_LEVEL,
            ) || zstd_frame(json@, ZSTD_LEVEL).len() > 0xffff_ffff),
            r matches Err(e) ==> (e == QueueError::Storage || e == QueueError::Crypto(
                CryptoError::Compress,
            )),
            r matches Ok(id) ==> {
                let pos = insert_pos(old(self)@, now_ms as i64);
                &&& id == old(self).next_id()
                &&& final(self).next_id() == old(self).next_id() + 1
                &&& final(self)@.len() == old(self)@.len() + 1
                &&& final(self)@ == old(self)@.insert(pos, final(self)@[pos])
                &&& final(self)@[pos].0 == id
                &&& final(self)@[pos].1 == now_ms
                &&& open_record(old(self).key_view(), old(self).aad_view(), final(self)@[pos].2)
                    == Some(json@)
            },
            r is Err ==> final(self)@ == old(self)@ && final(self).next_id() == old(self).next_id(),
    {
        let blob = match encrypt_compress(&self.key, &self.aad, json) {
            Ok(b) => b,
            Err(e) => {
                return Err(QueueError::Crypto(e));
            },
        };
        let ghost pre = db_events(self.conn);
        let ghost next = db_next_id(self.conn);
        match db_insert(&mut self.conn, now_ms as i64, &blob) {
            Ok(id) => {
                proof {
                    let pos = insert_pos(pre, now_ms as i64);
                    lemma_insert_pos_bounds(pre, now_ms as i64);
                    let row = (id, now_ms as i64, blob@);
                    assert(db_events(self.conn)[pos] == row);
                    lemma_insert_wf(pre, next, now_ms as i64, row);
                }
                Ok(id)
            },
            Err(_) => Err(QueueError::Storage),
        }
    }

    /// The number of queued records.
    pub fn queue_len(&self) -> (r: Result<i64, QueueError>)
        requires
            self.wf(),
        ensures
            r matches Ok(n) ==> n == self@.len(),
    {
        match db_len(&self.conn) {
            Ok(n) => Ok(n),
            Err(_) => Err(QueueError::Storage),
        }
    }

    /// Fetches up to `limit` records in query order, opening each payload.
    /// The batch lists identifiers and plaintexts of the first records; a
    /// payload that refuses to open fails the whole call — it is surfaced,
    /// never skipped.
    pub fn fetch_batch(&self, limit: usize) -> (r: Result<Vec<(i64, Vec<u8>)>, QueueError>)
        requires
            self.wf(),
        ensures
            r matches Ok(v) ==> v@.len() == min(limit as int, self@.len() as int) && (forall|i: int|
                0 <= i < v@.len() ==> (#[trigger] v@[i]).0 == self@[i].0 && open_record(
                    self.key_view(),
                    self.aad_view(),
                    self@[i].2,
                ) == Some(v@[i].1@)),
            r matches Err(QueueError::Crypto(_)) ==> exists|i: int|
                0 <= i < min(limit as int, self@.len() as int) && open_record(
                    self.key_view(),
                    self.aad_view(),
                    (#[trigger] self@[i]).2,
                ) is None,
    {
        let rows = match db_fetch_asc(&self.conn, limit) {
            Ok(v) => v,
            Err(_) => {
                return Err(QueueError::Storage);
            },
        };
        let mut out: Vec<(i64, Vec<u8>)> = Vec::new();
        let mut i: usize = 0;
        while i < rows.len()
            invariant
                self.wf(),
                0 <= i <= rows@.len(),
                rows@.len() == min(limit as int, self@.len() as int),
                forall|j: int|
                    0 <= j < rows@.len() ==> (#[trigger] rows@[j]).0 == self@[j].0 && rows@[j].1@
                        == self@[j].2,
                out@.len() == i,
                forall|j: int|
                    0 <= j < i ==> (#[trigger] out@[j]).0 == self@[j].0 && open_record(
                        self.key_view(),
                        self.aad_view(),
                        self@[j].2,
                    ) == Some(out@[j].1@),
            decreases rows@.len() - i,
        {
            let (id, payload) = (rows[i].0, &rows[i].1);
            match decrypt_decompress(&self.key, &self.aad, payload.as_slice()) {
                Ok(pt) => {
                    out.push((id, pt));
                },
                Err(e) => {
                    return Err(QueueError::Crypto(e));
                },
            }
            i += 1;
        }
        Ok(out)
    }

    /// Deletes the named records inside one transaction: all of them or —
    /// on failure — none. Deleting nothing always succeeds without
    /// touching the store. The count reports one per requested identifier,
    /// as the statement is issued for each: an absent or repeated
    /// identifier is still counted once per mention, while the rows
    /// removed are exactly those whose identifier is named.
    pub fn delete_ids(&mut self, ids: &Vec<i64>) -> (r: Result<usize, QueueError>)
        requires
            old(self).wf(),
        ensures
            final(self).wf(),
            final(self).key_view() == old(self).key_view(),
            final(self).aad_view() == old(self).aad_view(),
            final(self).next_id() == old(self).next_id(),
            ids@.len() == 0 ==> (r matches Ok(n) && n == 0),
            r matches Ok(n) ==> n == ids@.len() && final(self)@ == remove_ids(old(self)@, ids@),
            r is Err ==> final(self)@ == old(self)@,
    {
        let ghost pre = db_events(self.conn);
        let ghost next = db_next_id(self.conn);
        if ids.len() == 0 {
            proof {
                lemma_remove_ids_none(pre, ids@);
            }
            return Ok(0);
        }
        match db_delete_ids(&mut self.conn, ids) {
            Ok(n) => {
                proof {
                    lemma_remove_ids_wf(pre, next, ids@);
                }
                Ok(n)
            },
            Err(_) => Err(QueueError::Storage),
        }
    }

    /// The most recent records, opened, newest first — the control-plane
    /// preview.
    pub fn peek_decrypted_desc(&self, limit: usize) -> (r: Result<Vec<Vec<u8>>, QueueError>)
        requires
            self.wf(),
        ensures
            r matches Ok(v) ==> v@.len() == min(limit as int, self@.len() as int) && (forall|i: int|
                0 <= i < v@.len() ==> open_record(
                    self.key_view(),
                    self.aad_view(),
                    self@[self@.len() - 1 - i].2,
                ) == Some((#[trigger] v@[i])@)),
    {
        let rows = match db_fetch_desc(&self.conn, limit) {
            Ok(v) => v,
            Err(_) => {
                return Err(QueueError::Storage);
            },
        };
        let mut out: Vec<Vec<u8>> = Vec::new();
        let mut i: usize = 0;
        while i < rows.len()
            invariant
                self.wf(),
                0 <= i <= rows@.len(),
                rows@.len() == min(limit as int, self@.len() as int),
                forall|j: int|
                    0 <= j < rows@.len() ==> (#[trigger] rows@[j])@ == self@[self@.len() - 1 - j].2,
                out@.len() == i,
                forall|j: int|
                    0 <= j < i ==> open_record(
                        self.key_view(),
                        self.aad_view(),
                        self@[self@.len() - 1 - j].2,
                    ) == Some((#[trigger] out@[j])@),
            decreases rows@.len() - i,
        {
            match decrypt_decompress(&self.key, &self.aad, rows[i].as_slice()) {
                Ok(pt) => {
                    out.push(pt);
                },
                Err(e) => {
                    return Err(QueueError::Crypto(e));
                },
            }
            i += 1;
        }
        Ok(out)
    }

    /// The oldest records, opened, oldest first.
    pub fn peek_decrypted(&self, limit: usize) -> (r: Result<Vec<Vec<u8>>, QueueError>)
        requires
            self.wf(),
        ensures
            r matches Ok(v) ==> v@.len() == min(limit as int, self@.len() as int) && (forall|i: int|
                0 <= i < v@.len() ==> open_record(
                    self.key_view(),
                    self.aad_view(),
                    self@[i].2,
                ) == Some((#[trigger] v@[i])@)),
    {
        let batch = self.fetch_batch(limit)?;
        let mut out: Vec<Vec<u8>> = Vec::new();
        let mut i: usize = 0;
        while i < batch.len()
            invariant
                0 <= i <= batch@.len(),
                batch@.len() == min(limit as int, self@.len() as int),
                forall|j: int|
                    0 <= j < batch@.len() ==> open_record(
                        self.key_view(),
                        self.aad_view(),
                        self@[j].2,
                    ) == Some((#[trigger] batch@[j]).1@),
                out@.len() == i,
                forall|j: int|
                    0 <= j < i ==> open_record(self.key_view(), self.aad_view(), self@[j].2)
                        == Some((#[trigger] out@[j])@),
            decreases batch@.len() - i,
        {
            let pt = vstd::slice::slice_to_vec(batch[i].1.as_slice());
            out.push(pt);
            i += 1;
        }
        Ok(out)
    }
}

/// The insertion position is the length of the longest prefix of rows at
/// or below the timestamp: everything before it is at or below, and the
/// row standing at it (if any) is above.
pub proof fn lemma_insert_pos_bounds(s: Seq<(i64, i64, Seq<u8>)>, t: i64)
    ensures
        0 <= insert_pos(s, t) <= s.len(),
        forall|i: int| 0 <= i < insert_pos(s, t) ==> (#[trigger] s[i]).1 <= t,
        insert_pos(s, t) < s.len() ==> s[insert_pos(s, t)].1 > t,
    decreases s.len(),
{
    if s.len() == 0 || s[0].1 > t {
    } else {
        lemma_insert_pos_bounds(s.drop_first(), t);
        let pos = insert_pos(s, t);
        assert forall|i: int| 0 <= i < pos implies (#[trigger] s[i]).1 <= t by {
            if i > 0 {
                assert(s.drop_first()[i - 1] == s[i]);
            }
        }
        if pos < s.len() {
            assert(s.drop_first()[pos - 1] == s[pos]);
        }
    }
}

/// In a well-formed store the insertion point splits cleanly: everything
/// before it is strictly smaller in query order than the fresh row,
/// everything after strictly greater, so inserting keeps the store well
/// formed.
pub proof fn lemma_insert_wf(s: Seq<(i64, i64, Seq<u8>)>, next: int, t: i64, row: (i64, i64, Seq<u8>))
    requires
        db_wf(s, next),
        row.0 == next,
        row.1 == t,
    ensures
        db_wf(s.insert(insert_pos(s, t), row), next + 1),
    decreases s.len(),
{
    lemma_insert_pos_bounds(s, t);
    let pos = insert_pos(s, t);
    let s2 = s.insert(pos, row);
    assert forall|k: int| pos <= k < s.len() implies (#[trigger] s[k]).1 > t by {
        if k > pos {
            assert(row_lt(s[pos], s[k]));
        }
    }
    assert forall|i: int, j: int| 0 <= i < j < s2.len() implies row_lt(s2[i], s2[j]) by {
        if i < pos && j == pos {
            assert(s2[i] == s[i]);
        } else if i == pos && j > pos {
            assert(s2[j] == s[j - 1]);
        } else if i < pos && j > pos {
            assert(s2[i] == s[i] && s2[j] == s[j - 1]);
        } else if i < pos && j < pos {
            assert(s2[i] == s[i] && s2[j] == s[j]);
        } else {
            assert(s2[i] == s[i - 1] && s2[j] == s[j - 1]);
        }
    }
    assert forall|i: int, j: int|
        0 <= i < s2.len() && 0 <= j < s2.len() && i != j implies s2[i].0 != s2[j].0 by {
        if i != pos && j != pos {
            let i0 = if i < pos { i } else { i - 1 };
            let j0 = if j < pos { j } else { j - 1 };
            assert(s2[i] == s[i0] && s2[j] == s[j0]);
        } else if i == pos {
            let j0 = if j < pos { j } else { j - 1 };
            assert(s2[j] == s[j0]);
        } else {
            let i0 = if i < pos { i } else { i - 1 };
            assert(s2[i] == s[i0]);
        }
    }
    assert forall|i: int| 0 <= i < s2.len() implies (#[trigger] s2[i]).0 < next + 1 by {
        if i != pos {
            let i0 = if i < pos { i } else { i - 1 };
            assert(s2[i] == s[i0]);
        }
    }
}

/// Queue ordering law: a record whose timestamp is at or above every
/// present one lands at the very end of the store. A run of enqueues under
/// a clock that never steps backwards therefore appends in insertion
/// order, and a later batch reads them back in exactly that order.
pub proof fn lemma_enqueue_appends(s: Seq<(i64, i64, Seq<u8>)>, t: i64, row: (i64, i64, Seq<u8>))
    requires
        forall|i: int| 0 <= i < s.len() ==> (#[trigger] s[i]).1 <= t,
    ensures
        insert_pos(s, t) == s.len(),
        s.insert(insert_pos(s, t), row) == s.push(row),
    decreases s.len(),
{
    if s.len() == 0 {
    } else {
        assert forall|i: int| 0 <= i < s.drop_first().len() implies (#[trigger] s.drop_first()[i]).1
            <= t by {
            assert(s.drop_first()[i] == s[i + 1]);
        }
        lemma_enqueue_appends(s.drop_first(), t, row);
    }
    assert(s.insert(s.len() as int, row) =~= s.push(row));
}

/// The identifiers of the first `k` rows — what one shipped batch names.
pub open spec fn prefix_ids(s: Seq<(i64, i64, Seq<u8>)>, k: int) -> Seq<i64> {
    s.take(k).map_values(|r: (i64, i64, Seq<u8>)| r.0)
}

/// Dropping the first row of a well-formed store leaves it well formed.
proof fn lemma_db_wf_drop_first(s: Seq<(i64, i64, Seq<u8>)>, next: int)
    requires
        db_wf(s, next),
        s.len() > 0,
    ensures
        db_wf(s.drop_first(), next),
{
    let rest = s.drop_first();
    assert forall|i: int, j: int| 0 <= i < j < rest.len() implies row_lt(rest[i], rest[j]) by {
        assert(rest[i] == s[i + 1] && rest[j] == s[j + 1]);
    }
    assert forall|i: int, j: int|
        0 <= i < rest.len() && 0 <= j < rest.len() && i != j implies rest[i].0 != rest[j].0 by {
        assert(rest[i] == s[i + 1] && rest[j] == s[j + 1]);
    }
    assert forall|i: int| 0 <= i < rest.len() implies (#[trigger] rest[i]).0 < next by {
        assert(rest[i] == s[i + 1]);
    }
}

/// Two identifier sets that agree on every row present remove the same
/// rows.
proof fn lemma_remove_ids_same(s: Seq<(i64, i64, Seq<u8>)>, ids1: Seq<i64>, ids2: Seq<i64>)
    requires
        forall|i: int| 0 <= i < s.len() ==> (ids1.contains((#[trigger] s[i]).0) <==> ids2.contains(
            s[i].0,
        )),
    ensures
        remove_ids(s, ids1) == remove_ids(s, ids2),
    decreases s.len(),
{
    if s.len() == 0 {
    } else {
        assert forall|i: int| 0 <= i < s.drop_first().len() implies (ids1.contains(
            (#[trigger] s.drop_first()[i]).0,
        ) <==> ids2.contains(s.drop_first()[i].0)) by {
            assert(s.drop_first()[i] == s[i + 1]);
        }
        lemma_remove_ids_same(s.drop_first(), ids1, ids2);
    }
}

/// FIFO under interleaving: deleting exactly the identifiers of a fetched
/// prefix leaves exactly the suffix, and no shipped identifier stays
/// behind. The shipped batch and the remainder partition the store, so a
/// run of rounds — fetch a prefix, ship it, delete its identifiers —
/// delivers every record exactly once and in order: each round peels the
/// next slice off the same sequence.
pub proof fn lemma_ship_exactly_once(s: Seq<(i64, i64, Seq<u8>)>, next: int, k: int)
    requires
        db_wf(s, next),
        0 <= k <= s.len(),
    ensures
        remove_ids(s, prefix_ids(s, k)) == s.skip(k),
        s.take(k) + remove_ids(s, prefix_ids(s, k)) == s,
        forall|i: int, j: int| 0 <= i < k && k <= j < s.len() ==> (#[trigger] s[i]).0 != (
        #[trigger] s[j]).0,
    decreases k,
{
    assert(s.take(k) + s.skip(k) =~= s);
    let ids = prefix_ids(s, k);
    if k == 0 {
        assert(forall|i: int| 0 <= i < s.len() ==> !ids.contains((#[trigger] s[i]).0)) by {
            assert(ids.len() == 0);
        }
        lemma_remove_ids_none(s, ids);
        assert(s.skip(0) =~= s);
    } else {
        assert(ids[0] == s.take(k)[0].0);
        assert(s.take(k)[0] == s[0]);
        assert(ids.contains(s[0].0));
        assert(remove_ids(s, ids) == remove_ids(s.drop_first(), ids));
        let rest = s.drop_first();
        let rest_ids = prefix_ids(rest, k - 1);
        assert forall|i: int| 0 <= i < rest.len() implies (ids.contains((#[trigger] rest[i]).0)
            <==> rest_ids.contains(rest[i].0)) by {
            assert(rest[i] == s[i + 1]);
            if ids.contains(rest[i].0) {
                let m = choose|m: int| 0 <= m < ids.len() && ids[m] == rest[i].0;
                assert(ids[m] == s.take(k)[m].0);
                assert(s.take(k)[m] == s[m]);
                assert(s[m].0 == s[i + 1].0);
                assert(m == i + 1);
                assert(rest_ids[m - 1] == rest.take(k - 1)[m - 1].0);
                assert(rest.take(k - 1)[m - 1] == rest[m - 1]);
                assert(rest_ids.contains(rest[i].0));
            }
            if rest_ids.contains(rest[i].0) {
                let m = choose|m: int| 0 <= m < rest_ids.len() && rest_ids[m] == rest[i].0;
                assert(rest_ids[m] == rest.take(k - 1)[m].0);
                assert(rest.take(k - 1)[m] == rest[m]);
                assert(rest[m] == s[m + 1]);
                assert(ids[m + 1] == s.take(k)[m + 1].0);
                assert(s.take(k)[m + 1] == s[m + 1]);
                assert(ids.contains(rest[i].0));
            }
        }
        lemma_remove_ids_same(rest, ids, rest_ids);
        lemma_db_wf_drop_first(s, next);
        lemma_ship_exactly_once(rest, next, k - 1);
        assert(rest.skip(k - 1) =~= s.skip(k));
    }
}

/// How many rows of the store carry one of the named identifiers.
pub open spec fn hits(s: Seq<(i64, i64, Seq<u8>)>, ids: Seq<i64>) -> int
    decreases s.len(),
{
    if s.len() == 0 {
        0
    } else {
        (if ids.contains(s[0].0) {
            1int
        } else {
            0
        }) + hits(s.drop_first(), ids)
    }
}

/// Deleting removes exactly the hit rows.
proof fn lemma_remove_ids_len(s: Seq<(i64, i64, Seq<u8>)>, ids: Seq<i64>)
    ensures
        remove_ids(s, ids).len() == s.len() - hits(s, ids),
        0 <= hits(s, ids) <= s.len(),
    decreases s.len(),
{
    if s.len() > 0 {
        lemma_remove_ids_len(s.drop_first(), ids);
    }
}

/// Hits split over an identifier list extended by one fresh identifier.
proof fn lemma_hits_push(s: Seq<(i64, i64, Seq<u8>)>, ids: Seq<i64>, x: i64)
    requires
        !ids.contains(x),
    ensures
        hits(s, ids.push(x)) == hits(s, ids) + hits(s, seq![x]),
    decreases s.len(),
{
    if s.len() > 0 {
        lemma_hits_push(s.drop_first(), ids, x);
        assert(ids.push(x).contains(s[0].0) <==> (ids.contains(s[0].0) || s[0].0 == x)) by {
            if ids.push(x).contains(s[0].0) {
                let m = choose|m: int| 0 <= m < ids.push(x).len() && ids.push(x)[m] == s[0].0;
                if m < ids.len() {
                    assert(ids[m] == s[0].0);
                }
            }
            if ids.contains(s[0].0) {
                let m = choose|m: int| 0 <= m < ids.len() && ids[m] == s[0].0;
                assert(ids.push(x)[m] == s[0].0);
            }
            if s[0].0 == x {
                assert(ids.push(x)[ids.len() as int] == x);
            }
        }
        assert(seq![x].contains(s[0].0) <==> s[0].0 == x) by {
            if s[0].0 == x {
                assert(seq![x][0] == s[0].0);
            }
        }
    }
}

/// A store with unique identifiers holds exactly one hit for an
/// identifier that is present.
proof fn lemma_hits_single(s: Seq<(i64, i64, Seq<u8>)>, x: i64)
    requires
        forall|i: int, j: int|
            0 <= i < s.len() && 0 <= j < s.len() && i != j ==> s[i].0 != s[j].0,
        exists|i: int| 0 <= i < s.len() && (#[trigger] s[i]).0 == x,
    ensures
        hits(s, seq![x]) == 1,
    decreases s.len(),
{
    let w = choose|i: int| 0 <= i < s.len() && (#[trigger] s[i]).0 == x;
    assert(seq![x].contains(s[w].0)) by {
        assert(seq![x][0] == x);
    }
    if w == 0 {
        assert forall|i: int| 0 <= i < s.drop_first().len() implies !seq![x].contains(
            (#[trigger] s.drop_first()[i]).0,
        ) by {
            assert(s.drop_first()[i] == s[i + 1]);
            if seq![x].contains(s[i + 1].0) {
                assert(s[i + 1].0 == x);
                assert(s[0].0 != s[i + 1].0);
            }
        }
        lemma_hits_none(s.drop_first(), seq![x]);
    } else {
        assert(!seq![x].contains(s[0].0)) by {
            if seq![x].contains(s[0].0) {
                assert(s[0].0 == x);
                assert(s[0].0 != s[w].0);
            }
        }
        assert forall|i: int, j: int|
            0 <= i < s.drop_first().len() && 0 <= j < s.drop_first().len() && i
            != j implies s.drop_first()[i].0 != s.drop_first()[j].0 by {
            assert(s.drop_first()[i] == s[i + 1] && s.drop_first()[j] == s[j + 1]);
        }
        assert(s.drop_first()[w - 1] == s[w]);
        lemma_hits_single(s.drop_first(), x);
    }
}

/// No named identifier present means no hits.
proof fn lemma_hits_none(s: Seq<(i64, i64, Seq<u8>)>, ids: Seq<i64>)
    requires
        forall|i: int| 0 <= i < s.len() ==> !ids.contains((#[trigger] s[i]).0),
    ensures
        hits(s, ids) == 0,
    decreases s.len(),
{
    if s.len() > 0 {
        assert forall|i: int| 0 <= i < s.drop_first().len() implies !ids.contains(
            (#[trigger] s.drop_first()[i]).0,
        ) by {
            assert(s.drop_first()[i] == s[i + 1]);
        }
        lemma_hits_none(s.drop_first(), ids);
    }
}

/// Deletion-count law: naming distinct identifiers that are all present
/// removes exactly that many rows — the count a successful delete
/// reports equals the rows that left the store.
pub proof fn lemma_delete_named_rows(s: Seq<(i64, i64, Seq<u8>)>, next: int, ids: Seq<i64>)
    requires
        db_wf(s, next),
        forall|a: int, b: int| 0 <= a < b < ids.len() ==> ids[a] != ids[b],
        forall|k: int|
            0 <= k < ids.len() ==> exists|i: int|
                0 <= i < s.len() && (#[trigger] s[i]).0 == #[trigger] ids[k],
    ensures
        remove_ids(s, ids).len() == s.len() - ids.len(),
    decreases ids.len(),
{
    lemma_remove_ids_len(s, ids);
    lemma_hits_total(s, ids);
}

/// A store with unique identifiers holds exactly one hit per distinct
/// present identifier.
proof fn lemma_hits_total(s: Seq<(i64, i64, Seq<u8>)>, ids: Seq<i64>)
    requires
        forall|i: int, j: int|
            0 <= i < s.len() && 0 <= j < s.len() && i != j ==> s[i].0 != s[j].0,
        forall|a: int, b: int| 0 <= a < b < ids.len() ==> ids[a] != ids[b],
        forall|k: int|
            0 <= k < ids.len() ==> exists|i: int|
                0 <= i < s.len() && (#[trigger] s[i]).0 == #[trigger] ids[k],
    ensures
        hits(s, ids) == ids.len(),
    decreases ids.len(),
{
    if ids.len() == 0 {
        lemma_hits_none(s, ids);
    } else {
        let pre = ids.drop_last();
        let x = ids.last();
        assert(ids =~= pre.push(x));
        assert(!pre.contains(x)) by {
            if pre.contains(x) {
                let m = choose|m: int| 0 <= m < pre.len() && pre[m] == x;
                assert(ids[m] == ids[ids.len() - 1]);
            }
        }
        assert forall|k: int| 0 <= k < pre.len() implies exists|i: int|
            0 <= i < s.len() && (#[trigger] s[i]).0 == #[trigger] pre[k] by {
            assert(pre[k] == ids[k]);
        }
        lemma_hits_total(s, pre);
        lemma_hits_push(s, pre, x);
        assert(exists|i: int| 0 <= i < s.len() && (#[trigger] s[i]).0 == x) by {
            assert(ids[ids.len() - 1] == x);
        }
        lemma_hits_single(s, x);
        assert(hits(s, ids) == hits(s, pre.push(x)));
    }
}

/// Deleting nothing leaves every row in place.
pub proof fn lemma_remove_ids_none(s: Seq<(i64, i64, Seq<u8>)>, ids: Seq<i64>)
    requires
        forall|i: int| 0 <= i < s.len() ==> !ids.contains((#[trigger] s[i]).0),
    ensures
        remove_ids(s, ids) == s,
    decreases s.len(),
{
    if s.len() == 0 {
        assert(remove_ids(s, ids) =~= s);
    } else {
        assert forall|i: int| 0 <= i < s.drop_first().len() implies !ids.contains(
            (#[trigger] s.drop_first()[i]).0,
        ) by {
            assert(s.drop_first()[i] == s[i + 1]);
        }
        lemma_remove_ids_none(s.drop_first(), ids);
        assert(remove_ids(s, ids) =~= s);
    }
}

/// What survives a deletion: exactly the rows whose identifier was not
/// named, in their old order — so the result is again well formed, no
/// named identifier reappears, and every other row stays.
pub proof fn lemma_remove_ids_wf(s: Seq<(i64, i64, Seq<u8>)>, next: int, ids: Seq<i64>)
    requires
        db_wf(s, next),
    ensures
        db_wf(remove_ids(s, ids), next),
        forall|i: int| 0 <= i < remove_ids(s, ids).len() ==> !ids.contains(
            (#[trigger] remove_ids(s, ids)[i]).0,
        ),
        forall|i: int| 0 <= i < remove_ids(s, ids).len() ==> s.contains(
            #[trigger] remove_ids(s, ids)[i],
        ),
        forall|i: int|
            0 <= i < s.len() && !ids.contains((#[trigger] s[i]).0) ==> remove_ids(
                s,
                ids,
            ).contains(s[i]),
        remove_ids(s, ids).len() <= s.len(),
    decreases s.len(),
{
    if s.len() == 0 {
    } else {
        let rest = s.drop_first();
        assert(db_wf(rest, next)) by {
            assert forall|i: int, j: int| 0 <= i < j < rest.len() implies row_lt(
                rest[i],
                rest[j],
            ) by {
                assert(rest[i] == s[i + 1] && rest[j] == s[j + 1]);
            }
            assert forall|i: int, j: int|
                0 <= i < rest.len() && 0 <= j < rest.len() && i != j implies rest[i].0
                != rest[j].0 by {
                assert(rest[i] == s[i + 1] && rest[j] == s[j + 1]);
            }
            assert forall|i: int| 0 <= i < rest.len() implies (#[trigger] rest[i]).0 < next by {
                assert(rest[i] == s[i + 1]);
            }
        }
        lemma_remove_ids_wf(rest, next, ids);
        let r = remove_ids(s, ids);
        let rr = remove_ids(rest, ids);
        if ids.contains(s[0].0) {
            assert(r == rr);
            assert forall|i: int| 0 <= i < r.len() implies s.contains(#[trigger] r[i]) by {
                assert(rest.contains(r[i]));
                let k = choose|k: int| 0 <= k < rest.len() && rest[k] == r[i];
                assert(s[k + 1] == rest[k]);
            }
            assert forall|i: int|
                0 <= i < s.len() && !ids.contains((#[trigger] s[i]).0) implies r.contains(
                s[i],
            ) by {
                assert(i != 0);
                assert(s[i] == rest[i - 1]);
                assert(rr.contains(rest[i - 1]));
            }
        } else {
            assert(r == seq![s[0]] + rr);
            assert(r[0] == s[0]);
            assert forall|i: int| 0 <= i < r.len() implies s.contains(#[trigger] r[i]) by {
                if i == 0 {
                    assert(s[0] == r[0]);
                } else {
                    assert(r[i] == rr[i - 1]);
                    assert(rest.contains(rr[i - 1]));
                    let k = choose|k: int| 0 <= k < rest.len() && rest[k] == rr[i - 1];
                    assert(s[k + 1] == rest[k]);
                }
            }
            assert forall|i: int, j: int| 0 <= i < j < r.len() implies row_lt(r[i], r[j]) by {
                if i == 0 {
                    assert(r[j] == rr[j - 1]);
                    assert(rest.contains(rr[j - 1]));
                    let k = choose|k: int| 0 <= k < rest.len() && rest[k] == rr[j - 1];
                    assert(rest[k] == s[k + 1]);
                    assert(row_lt(s[0], s[k + 1]));
                } else {
                    assert(r[i] == rr[i - 1] && r[j] == rr[j - 1]);
                }
            }
            assert forall|i: int, j: int|
                0 <= i < r.len() && 0 <= j < r.len() && i != j implies r[i].0 != r[j].0 by {
                if i == 0 || j == 0 {
                    let m = if i == 0 { j } else { i };
                    assert(r[m] == rr[m - 1]);
                    assert(rest.contains(rr[m - 1]));
                    let k = choose|k: int| 0 <= k < rest.len() && rest[k] == rr[m - 1];
                    assert(rest[k] == s[k + 1]);
                    assert(s[0].0 != s[k + 1].0);
                } else {
                    assert(r[i] == rr[i - 1] && r[j] == rr[j - 1]);
                }
            }
            assert forall|i: int| 0 <= i < r.len() implies (#[trigger] r[i]).0 < next by {
                if i > 0 {
                    assert(r[i] == rr[i - 1]);
                }
            }
            assert forall|i: int| 0 <= i < r.len() implies !ids.contains((#[trigger] r[i]).0) by {
                if i > 0 {
                    assert(r[i] == rr[i - 1]);
                }
            }
            assert forall|i: int|
                0 <= i < s.len() && !ids.contains((#[trigger] s[i]).0) implies r.contains(
                s[i],
            ) by {
                if i == 0 {
                    assert(r[0] == s[0]);
                } else {
                    assert(s[i] == rest[i - 1]);
                    assert(rr.contains(rest[i - 1]));
                    let k = choose|k: int| 0 <= k < rr.len() && rr[k] == s[i];
                    assert(r[k + 1] == rr[k]);
                }
            }
        }
    }
}

} // verus!
