//! The `.nextdb` parts database: its optional metadata row and its alternative part sets.

use vstd::prelude::*;
use crate::db::{alt_prefix, lemma_prefixed, prefixed_by_one_of, query_count, query_optional_text, query_texts, stage_message, QueryError};
use crate::text::{chars_of, concat, sort_strings, sorted_strs, string_of, strs};
use crate::xml_text::slice_chars;

verus! {

/// Metadata stored in the `metadata` table of a `.nextdb` parts database.
#[derive(Debug, Clone)]
pub struct NextdbMetadata {
    /// User-assigned version string for this parts database.
    pub database_version: String,
}

/// Reads the metadata row of a parts database.
///
/// Returns `None` if the `metadata` table does not exist or has no row: the table is
/// optional, and older or externally created databases may omit it.
pub fn read_nextdb_metadata(conn: &rusqlite::Connection) -> (r: Result<Option<NextdbMetadata>, String>)
    ensures
        r matches Err(e) ==> prefixed_by_one_of(e@, nextdb_metadata_errors()),
{
    let table_exists = match query_count(
        conn,
        "SELECT COUNT(*) FROM sqlite_master WHERE type='table' AND name='metadata'",
        None,
    ) {
        Ok(n) => n,
        Err(e) => {
            let m = concat("Failed to check nextdb metadata table: ", e.as_str());
            proof {
                lemma_prefixed(nextdb_metadata_errors(), 0, e@);
            }
            return Err(m);
        },
    };
    if table_exists == 0 {
        return Ok(None);
    }
    match query_optional_text(conn, "SELECT database_version FROM metadata WHERE id = 1") {
        Ok(Some(database_version)) => Ok(Some(NextdbMetadata { database_version })),
        Ok(None) => Ok(None),
        Err(e) => {
            let m = concat("Failed to read nextdb metadata: ", e.as_str());
            proof {
                lemma_prefixed(nextdb_metadata_errors(), 1, e@);
            }
            Err(m)
        },
    }
}

/// The project-specifics identifiers of table names: each name that starts with `alt_`, with
/// that one prefix removed, in order; other names are left out.
pub open spec fn alt_ids(names: Seq<Seq<char>>) -> Seq<Seq<char>>
    decreases names.len(),
{
    if names.len() == 0 {
        Seq::empty()
    } else {
        let rest = alt_ids(names.drop_last());
        let n = names.last();
        if alt_prefix().is_prefix_of(n) {
            rest.push(n.skip(4))
        } else {
            rest
        }
    }
}

/// `ids` are the identifiers of the table names `names`, in ascending order.
pub open spec fn ids_of_tables(ids: Seq<Seq<char>>, names: Seq<Seq<char>>) -> bool {
    &&& sorted_strs(ids)
    &&& ids.to_multiset() == alt_ids(names).to_multiset()
}

/// `ids` are the identifiers of some table names, in ascending order.
pub open spec fn ids_of_some_tables(ids: Seq<Seq<char>>) -> bool {
    exists|names: Seq<Seq<char>>| #[trigger] ids_of_tables(ids, names)
}

/// The project-specifics identifiers of table names: the names that start with `alt_`, with
/// that prefix removed once.
pub fn alt_identifiers(names: &Vec<String>) -> (r: Vec<String>)
    ensures
        strs(r@) == alt_ids(strs(names@)),
{
    let mut r: Vec<String> = Vec::new();
    let mut i: usize = 0;
    while i < names.len()
        invariant
            i <= names@.len(),
            strs(r@) == alt_ids(strs(names@).take(i as int)),
        decreases names@.len() - i,
    {
        let ghost t = strs(names@).take(i + 1);
        assert(t.drop_last() =~= strs(names@).take(i as int));
        assert(t.last() == names@[i as int]@);
        let c = chars_of(names[i].as_str());
        if c.len() >= 4 && c[0] == 'a' && c[1] == 'l' && c[2] == 't' && c[3] == '_' {
            assert(alt_prefix().is_prefix_of(c@)) by {
                assert(c@.subrange(0, 4) =~= alt_prefix());
            }
            let rest = slice_chars(&c, 4, c.len());
            let ghost before = strs(r@);
            r.push(string_of(&rest));
            assert(rest@ =~= c@.skip(4));
            assert(strs(r@) =~= before.push(c@.skip(4)));
        } else {
            assert(!alt_prefix().is_prefix_of(c@));
        }
        i += 1;
    }
    assert(strs(names@).take(names@.len() as int) =~= strs(names@));
    r
}

/// The project-specifics identifiers a parts database offers: the names of its tables that
/// start with `alt_`, in ascending order, with that prefix removed once. Each value can be
/// stored as a project's `project_specifics`, and names its table again as `alt_` and the
/// value.
pub fn list_alt_tables(conn: &rusqlite::Connection) -> (r: Result<Vec<String>, String>)
    ensures
        r matches Ok(v) ==> ids_of_some_tables(strs(v@)),
        r matches Err(e) ==> prefixed_by_one_of(e@, alt_table_errors()),
{
    let names = match query_texts(
        conn,
        "SELECT name FROM sqlite_master WHERE type='table' AND name LIKE 'alt_%' ORDER BY name",
    ) {
        Ok(n) => n,
        Err(e) => {
            let ghost ge = e;
            let m = stage_message(e, "Failed to query alt tables: ", "Failed to read alt table names: ", "Failed to read table name: ");
            proof {
                match ge {
                    QueryError::Prepare(x) => lemma_prefixed(alt_table_errors(), 0, x@),
                    QueryError::Query(x) => lemma_prefixed(alt_table_errors(), 1, x@),
                    QueryError::Row(x) => lemma_prefixed(alt_table_errors(), 2, x@),
                }
            }
            return Err(m);
        },
    };
    let ids = sort_strings(&alt_identifiers(&names));
    assert(ids_of_tables(strs(ids@), strs(names@)));
    Ok(ids)
}

/// Every identifier listed from table names names one of those tables again as `alt_` and
/// the identifier, so a project-specifics value taken from the list finds its table.
pub proof fn lemma_listed_id_names_its_table(names: Seq<Seq<char>>, id: Seq<char>)
    requires
        alt_ids(names).contains(id),
    ensures
        names.contains(alt_prefix() + id),
    decreases names.len(),
{
    let rest = alt_ids(names.drop_last());
    let n = names.last();
    if rest.contains(id) {
        lemma_listed_id_names_its_table(names.drop_last(), id);
        let k = choose|k: int| 0 <= k < names.drop_last().len() && names.drop_last()[k] == alt_prefix() + id;
        assert(names[k] == alt_prefix() + id);
    } else {
        assert(alt_prefix().is_prefix_of(n) && id == n.skip(4)) by {
            let k = choose|k: int| 0 <= k < alt_ids(names).len() && alt_ids(names)[k] == id;
            if !alt_prefix().is_prefix_of(n) {
                assert(rest.contains(id));
            } else if k < rest.len() {
                assert(rest[k] == id);
            }
        }
        assert(alt_prefix() + id =~= n) by {
            assert(n.subrange(0, 4) =~= alt_prefix());
        }
        assert(names[names.len() - 1] == n);
    }
}

/// The identifier of the table named `alt_` and an identifier is that identifier.
pub proof fn lemma_alt_name_round_trip(specifics: Seq<char>)
    ensures
        alt_ids(seq![alt_prefix() + specifics]) == seq![specifics],
{
    let n = alt_prefix() + specifics;
    assert(seq![n].drop_last() =~= Seq::<Seq<char>>::empty());
    assert(alt_ids(seq![n].drop_last()) =~= Seq::<Seq<char>>::empty());
    assert(seq![n].last() == n);
    assert(alt_prefix().is_prefix_of(n)) by {
        assert(n.subrange(0, 4) =~= alt_prefix());
    }
    assert(n.skip(4) =~= specifics);
    assert(Seq::<Seq<char>>::empty().push(specifics) =~= seq![specifics]);
}

/// The beginnings of the messages of a failed read of a parts database's metadata.
pub open spec fn nextdb_metadata_errors() -> Seq<Seq<char>> {
    seq!["Failed to check nextdb metadata table: "@, "Failed to read nextdb metadata: "@]
}

/// The beginnings of the messages of a failed listing of alternative tables.
pub open spec fn alt_table_errors() -> Seq<Seq<char>> {
    seq!["Failed to query alt tables: "@, "Failed to read alt table names: "@, "Failed to read table name: "@]
}

} // verus!
