//! The schema migration ladder: which upgrade steps a database at a
//! given version needs, the SQL text of each step, and the row logic of
//! the tag-rebuild steps. Executing the SQL is the caller's side; the
//! ladder itself — order, completeness, and refusal of a database newer
//! than this build — is decided here.
use vstd::prelude::*;

use crate::hexutil::{hex_decode, is_lower_hex, spec_hex_decode, spec_is_hex, spec_is_lower_hex};

verus! {

/// The schema version this build understands.
pub const DB_VERSION: u64 = 11;

/// Pragmas applied to every fresh connection.
pub const STARTUP_SQL: &'static str = "PRAGMA main.synchronous=NORMAL;\nPRAGMA foreign_keys = ON;\nPRAGMA journal_size_limit=32768;\npragma mmap_size = 17179869184; -- cap mmap at 16GB\n";

/// The full schema, created at the current version: events with their
/// hidden flag and delegation column, the split-column tag index, the
/// verification records, and the composite indexes the compiler needs.
pub const INIT_SQL: &'static str = "\
PRAGMA encoding = \"UTF-8\";\n\
PRAGMA journal_mode=WAL;\n\
PRAGMA main.synchronous=NORMAL;\n\
PRAGMA foreign_keys = ON;\n\
PRAGMA application_id = 1654008667;\n\
PRAGMA user_version = 11;\n\
CREATE TABLE IF NOT EXISTS event (\n\
id INTEGER PRIMARY KEY,\n\
event_hash BLOB NOT NULL,\n\
first_seen INTEGER NOT NULL,\n\
created_at INTEGER NOT NULL,\n\
author BLOB NOT NULL,\n\
delegated_by BLOB,\n\
kind INTEGER NOT NULL,\n\
hidden INTEGER,\n\
content TEXT NOT NULL\n\
);\n\
CREATE UNIQUE INDEX IF NOT EXISTS event_hash_index ON event(event_hash);\n\
CREATE INDEX IF NOT EXISTS author_index ON event(author);\n\
CREATE INDEX IF NOT EXISTS created_at_index ON event(created_at);\n\
CREATE INDEX IF NOT EXISTS delegated_by_index ON event(delegated_by);\n\
CREATE INDEX IF NOT EXISTS event_composite_index ON event(kind,created_at);\n\
CREATE TABLE IF NOT EXISTS tag (\n\
id INTEGER PRIMARY KEY,\n\
event_id INTEGER NOT NULL,\n\
name TEXT,\n\
value TEXT,\n\
value_hex BLOB,\n\
FOREIGN KEY(event_id) REFERENCES event(id) ON UPDATE CASCADE ON DELETE CASCADE\n\
);\n\
CREATE INDEX IF NOT EXISTS tag_val_index ON tag(value);\n\
CREATE INDEX IF NOT EXISTS tag_val_hex_index ON tag(value_hex);\n\
CREATE INDEX IF NOT EXISTS tag_composite_index ON tag(event_id,name,value_hex,value);\n\
CREATE INDEX IF NOT EXISTS tag_name_eid_index ON tag(name,event_id,value_hex);\n\
CREATE TABLE IF NOT EXISTS user_verification (\n\
id INTEGER PRIMARY KEY,\n\
metadata_event INTEGER NOT NULL,\n\
name TEXT NOT NULL,\n\
verified_at INTEGER,\n\
failed_at INTEGER,\n\
failure_count INTEGER DEFAULT 0,\n\
FOREIGN KEY(metadata_event) REFERENCES event(id) ON UPDATE CASCADE ON DELETE CASCADE\n\
);\n\
CREATE INDEX IF NOT EXISTS user_verification_name_index ON user_verification(name);\n\
CREATE INDEX IF NOT EXISTS user_verification_event_index ON user_verification(metadata_event);\n";

/// Adds the hidden flag to events.
pub const MIG_1_TO_2_SQL: &'static str = "ALTER TABLE event ADD hidden INTEGER;\nUPDATE event SET hidden=FALSE;\nPRAGMA user_version = 2;\n";

/// Creates the tag table; the caller then rebuilds rows from the old
/// reference tables with `legacy_ref_value`.
pub const MIG_2_TO_3_SQL: &'static str = "CREATE TABLE IF NOT EXISTS tag (\nid INTEGER PRIMARY KEY,\nevent_id INTEGER NOT NULL,\nname TEXT,\nvalue TEXT,\nvalue_hex BLOB,\nFOREIGN KEY(event_id) REFERENCES event(id) ON UPDATE CASCADE ON DELETE CASCADE\n);\nPRAGMA user_version = 3;\n";

/// Creates the identity-verification records.
pub const MIG_3_TO_4_SQL: &'static str = "CREATE TABLE IF NOT EXISTS user_verification (\nid INTEGER PRIMARY KEY,\nmetadata_event INTEGER NOT NULL,\nname TEXT NOT NULL,\nverified_at INTEGER,\nfailed_at INTEGER,\nfailure_count INTEGER DEFAULT 0,\nFOREIGN KEY(metadata_event) REFERENCES event(id) ON UPDATE CASCADE ON DELETE CASCADE\n);\nCREATE INDEX IF NOT EXISTS user_verification_name_index ON user_verification(name);\nCREATE INDEX IF NOT EXISTS user_verification_event_index ON user_verification(metadata_event);\nPRAGMA user_version = 4;\n";

/// Drops the superseded reference tables.
pub const MIG_4_TO_5_SQL: &'static str = "DROP TABLE IF EXISTS event_ref;\nDROP TABLE IF EXISTS pubkey_ref;\nPRAGMA user_version=5;\n";

/// Clears the tag table before the caller rebuilds every row with
/// `index_tags`, and stamps the version; a vacuum follows the rebuild.
pub const MIG_5_TO_6_SQL: &'static str = "DELETE FROM tag;\nPRAGMA user_version = 6;\n";

/// Adds the delegation column and its index.
pub const MIG_6_TO_7_SQL: &'static str = "ALTER TABLE event ADD delegated_by BLOB;\nCREATE INDEX IF NOT EXISTS delegated_by_index ON event(delegated_by);\nPRAGMA user_version = 7;\n";

/// Replaces two single-column indexes with a composite one.
pub const MIG_7_TO_8_SQL: &'static str = "DROP INDEX IF EXISTS created_at_index;\nDROP INDEX IF EXISTS kind_index;\nCREATE INDEX IF NOT EXISTS event_composite_index ON event(kind,created_at);\nPRAGMA user_version = 8;\n";

/// Restores the timestamp index alongside the composite one.
pub const MIG_8_TO_9_SQL: &'static str = "CREATE INDEX IF NOT EXISTS created_at_index ON event(created_at);\nCREATE INDEX IF NOT EXISTS event_composite_index ON event(kind,created_at);\nPRAGMA user_version = 9;\n";

/// Adds the wide tag composite index.
pub const MIG_9_TO_10_SQL: &'static str = "CREATE INDEX IF NOT EXISTS tag_composite_index ON tag(event_id,name,value_hex,value);\nPRAGMA user_version = 10;\n";

/// Adds the name-first tag index and refreshes statistics.
pub const MIG_10_TO_11_SQL: &'static str = "CREATE INDEX IF NOT EXISTS tag_name_eid_index ON tag(name,event_id,value_hex);\nreindex;\npragma optimize;\nPRAGMA user_version = 11;\n";

/// The ladder from a current version to this build's: a fresh database
/// is initialized in one step at the final version; an out-of-date one
/// takes every step from its version on, in order.
pub open spec fn spec_upgrade_steps(curr: int) -> Seq<int> {
    if curr == 0 {
        seq![0]
    } else {
        Seq::new((DB_VERSION - curr) as nat, |i: int| curr + i)
    }
}

/// Step numbers as mathematical integers.
pub open spec fn step_models(s: Seq<u64>) -> Seq<int> {
    s.map_values(|v: u64| v as int)
}

proof fn lemma_step_models_push(s: Seq<u64>, x: u64)
    ensures
        step_models(s.push(x)) == step_models(s).push(x as int),
{
    assert(step_models(s.push(x)) =~= step_models(s).push(x as int));
}

/// Decide the upgrade: the steps to run in order, or, for a database
/// newer than this build understands, a refusal carrying the version.
pub fn upgrade_plan(curr: u64) -> (r: Result<Vec<u64>, u64>)
    ensures
        curr > DB_VERSION <==> r is Err,
        r is Err ==> r->Err_0 == curr,
        r is Ok ==> step_models(r->Ok_0@) == spec_upgrade_steps(curr as int),
{
    if curr > DB_VERSION {
        return Err(curr);
    }
    let mut steps: Vec<u64> = Vec::new();
    if curr == 0 {
        let ghost pre = steps@;
        steps.push(0);
        proof {
            lemma_step_models_push(pre, 0);
            assert(step_models(pre) =~= Seq::<int>::empty());
            assert(step_models(steps@) =~= spec_upgrade_steps(0));
        }
        return Ok(steps);
    }
    let mut v = curr;
    proof {
        assert(step_models(steps@) =~= Seq::new((v - curr) as nat, |i: int| curr as int + i));
    }
    while v < DB_VERSION
        invariant
            curr <= v <= DB_VERSION,
            1 <= curr,
            step_models(steps@) == Seq::new((v - curr) as nat, |i: int| curr as int + i),
        decreases DB_VERSION - v,
    {
        let ghost pre = steps@;
        steps.push(v);
        proof {
            lemma_step_models_push(pre, v);
            assert(step_models(steps@) =~= Seq::new(
                (v + 1 - curr) as nat,
                |i: int| curr as int + i,
            ));
        }
        v += 1;
    }
    proof {
        assert(step_models(steps@) =~= spec_upgrade_steps(curr as int));
    }
    Ok(steps)
}

/// The SQL text for one upgrade step, step 0 being initialization from
/// scratch.
pub fn migration_sql(step: u64) -> (r: Option<&'static str>)
    ensures
        r is Some <==> step <= 10,
        step == 0 ==> r == Some(INIT_SQL),
        step == 1 ==> r == Some(MIG_1_TO_2_SQL),
        step == 2 ==> r == Some(MIG_2_TO_3_SQL),
        step == 3 ==> r == Some(MIG_3_TO_4_SQL),
        step == 4 ==> r == Some(MIG_4_TO_5_SQL),
        step == 5 ==> r == Some(MIG_5_TO_6_SQL),
        step == 6 ==> r == Some(MIG_6_TO_7_SQL),
        step == 7 ==> r == Some(MIG_7_TO_8_SQL),
        step == 8 ==> r == Some(MIG_8_TO_9_SQL),
        step == 9 ==> r == Some(MIG_9_TO_10_SQL),
        step == 10 ==> r == Some(MIG_10_TO_11_SQL),
{
    match step {
        0 => Some(INIT_SQL),
        1 => Some(MIG_1_TO_2_SQL),
        2 => Some(MIG_2_TO_3_SQL),
        3 => Some(MIG_3_TO_4_SQL),
        4 => Some(MIG_4_TO_5_SQL),
        5 => Some(MIG_5_TO_6_SQL),
        6 => Some(MIG_6_TO_7_SQL),
        7 => Some(MIG_7_TO_8_SQL),
        8 => Some(MIG_8_TO_9_SQL),
        9 => Some(MIG_9_TO_10_SQL),
        10 => Some(MIG_10_TO_11_SQL),
        _ => None,
    }
}

/// The rebuilt binding for one legacy reference row, whose value column
/// holds the hex rendering of the referenced key: rows that are not
/// lowercase hex are dropped, the rest store the decoded bytes (or a
/// null for an undecodable odd-length value, as the original bound it).
pub fn legacy_ref_value(value: &String) -> (r: Option<Option<Vec<u8>>>)
    ensures
        r is Some <==> spec_is_lower_hex(value@),
        r is Some ==> ((r->0 is Some) <==> value@.len() % 2 == 0),
        r is Some && r->0 is Some ==> r->0->0@ == spec_hex_decode(value@),
{
    if !is_lower_hex(value.as_str()) {
        return None;
    }
    proof {
        assert forall|k: int|
            0 <= k < value@.len() implies crate::hexutil::is_hex_digit(#[trigger] value@[k]) by {
            assert(crate::hexutil::is_lower_hex_digit(value@[k]));
        }
        assert(spec_is_hex(value@));
    }
    match hex_decode(value.as_str()) {
        Some(b) => Some(Some(b)),
        None => {
            proof {
                assert(value@.len() % 2 != 0);
            }
            Some(None)
        },
    }
}

} // verus!
