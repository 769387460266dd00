//! The backing store's description and the SQL that a schema profile writes
//! for it.

use vstd::prelude::*;
use crate::error::AppError;
use crate::text::{doubled, nat_text, push_doubled, push_nat};

verus! {

/// Name and database of a data source.
#[derive(Debug, Clone)]
pub struct SourceMetadata {
    pub name: String,
    pub database: String,
}

impl SourceMetadata {
    pub fn new(name: String, database: String) -> (r: Self)
        ensures
            r.name == name,
            r.database == database,
    {
        SourceMetadata { name, database }
    }
}

/// A table and its schema.
#[derive(Debug, Clone)]
pub struct TableInfo {
    pub schema: String,
    pub name: String,
}

impl TableInfo {
    pub fn new(schema: String, name: String) -> (r: Self)
        ensures
            r.schema == schema,
            r.name == name,
    {
        TableInfo { schema, name }
    }

    /// `[schema].[name]`, each identifier bracket-escaped (`]` doubled).
    pub fn full_name(&self) -> (r: String)
        ensures
            r@ == "["@ + doubled(self.schema@, ']') + "].["@ + doubled(self.name@, ']') + "]"@,
    {
        let mut s = String::from_str("[");
        push_doubled(&mut s, self.schema.as_str(), ']');
        s.append("].[");
        push_doubled(&mut s, self.name.as_str(), ']');
        s.append("]");
        s
    }
}

/// The tag list of an inclusion filter: each tag quoted, quotes doubled,
/// separated by ", ".
pub open spec fn quoted_list(tags: Seq<String>) -> Seq<char>
    decreases tags.len(),
{
    if tags.len() == 0 {
        Seq::empty()
    } else if tags.len() == 1 {
        "'"@ + doubled(tags[0]@, '\'') + "'"@
    } else {
        quoted_list(tags.drop_last()) + ", "@ + "'"@ + doubled(tags.last()@, '\'') + "'"@
    }
}

/// The filter fragment for optional tags: empty without tags, else an
/// inclusion list on the tag column.
pub open spec fn tag_filter_text(column: Seq<char>, tags: Option<Seq<String>>) -> Seq<char> {
    match tags {
        Some(t) => if t.len() > 0 { "AND "@ + column + " IN ("@ + quoted_list(t) + ")"@ } else { Seq::empty() },
        None => Seq::empty(),
    }
}

pub open spec fn tag_search_text(limit: nat) -> Seq<char> {
    "SELECT DISTINCT TOP "@ + nat_text(limit)
        + " TagName \n               FROM [TagDataBase] \n               WHERE TagName LIKE @P1\n               ORDER BY TagName"@
}

pub open spec fn history_query_text(table: Seq<char>, start_time: Seq<char>, end_time: Seq<char>, tag_filter: Seq<char>) -> Seq<char> {
    "SELECT DateTime, TagName, TagVal, TagQuality \n               FROM ["@ + doubled(table, ']')
        + "] WITH (NOLOCK)\n               WHERE DateTime BETWEEN '"@ + doubled(start_time, '\'') + "' AND '"@
        + doubled(end_time, '\'') + "'\n               "@ + tag_filter + "\n               ORDER BY DateTime"@
}

/// Writes the SQL of one backing-store schema.
pub trait SchemaProfile {
    fn name(&self) -> String;

    fn tag_search_sql(&self, limit: usize) -> String;

    fn history_query_sql(&self, table: &str, start_time: &str, end_time: &str, tag_filter: &str) -> String;

    fn build_tag_filter(&self, tags: Option<&[String]>) -> String;
}

/// The profile of the standard history schema.
#[derive(Debug, Clone, Copy)]
pub struct DefaultProfile {}

impl DefaultProfile {
    pub fn new() -> (r: Self) {
        DefaultProfile {}
    }

    pub fn name(&self) -> (r: String)
        ensures
            r@ == "default"@,
    {
        String::from_str("default")
    }

    /// Tag search with a row limit; the pattern is the bound parameter `@P1`.
    pub fn tag_search_sql(&self, limit: usize) -> (r: String)
        ensures
            r@ == tag_search_text(limit as nat),
    {
        let mut s = String::from_str("SELECT DISTINCT TOP ");
        push_nat(&mut s, limit as u64);
        s.append(" TagName \n               FROM [TagDataBase] \n               WHERE TagName LIKE @P1\n               ORDER BY TagName");
        s
    }

    /// History query over a time range; the table name is bracket-escaped,
    /// the times quote-escaped, and the filter fragment appended as given.
    pub fn history_query_sql(&self, table: &str, start_time: &str, end_time: &str, tag_filter: &str) -> (r: String)
        ensures
            r@ == history_query_text(table@, start_time@, end_time@, tag_filter@),
    {
        let mut s = String::from_str("SELECT DateTime, TagName, TagVal, TagQuality \n               FROM [");
        push_doubled(&mut s, table, ']');
        s.append("] WITH (NOLOCK)\n               WHERE DateTime BETWEEN '");
        push_doubled(&mut s, start_time, '\'');
        s.append("' AND '");
        push_doubled(&mut s, end_time, '\'');
        s.append("'\n               ");
        s.append(tag_filter);
        s.append("\n               ORDER BY DateTime");
        proof {
            assert(s@ =~= history_query_text(table@, start_time@, end_time@, tag_filter@));
        }
        s
    }

    pub fn tag_column_name(&self) -> (r: String)
        ensures
            r@ == "TagName"@,
    {
        String::from_str("TagName")
    }

    pub fn datetime_column_name(&self) -> (r: String)
        ensures
            r@ == "DateTime"@,
    {
        String::from_str("DateTime")
    }

    pub fn value_column_name(&self) -> (r: String)
        ensures
            r@ == "TagVal"@,
    {
        String::from_str("TagVal")
    }

    pub fn quality_column_name(&self) -> (r: String)
        ensures
            r@ == "TagQuality"@,
    {
        String::from_str("TagQuality")
    }

    /// The tag filter fragment: empty without tags, else
    /// `AND TagName IN ('a', 'b')` with quotes doubled.
    pub fn build_tag_filter(&self, tags: Option<&[String]>) -> (r: String)
        ensures
            r@ == tag_filter_text("TagName"@, match tags {
                Some(t) => Some(t@),
                None => None,
            }),
    {
        match tags {
            None => String::new(),
            Some(t) => {
                if t.len() == 0 {
                    return String::new();
                }
                let mut list = String::new();
                let mut i: usize = 0;
                while i < t.len()
                    invariant
                        0 <= i <= t@.len(),
                        list@ == quoted_list(t@.subrange(0, i as int)),
                    decreases t@.len() - i,
                {
                    let ghost before = list@;
                    if i > 0 {
                        list.append(", ");
                    }
                    list.append("'");
                    push_doubled(&mut list, t[i].as_str(), '\'');
                    list.append("'");
                    proof {
                        let next = t@.subrange(0, i + 1);
                        assert(next.drop_last() =~= t@.subrange(0, i as int));
                        assert(next.last() == t@[i as int]);
                        if i == 0 {
                            assert(list@ =~= quoted_list(next));
                        } else {
                            assert(list@ =~= quoted_list(next));
                        }
                    }
                    i = i + 1;
                }
                assert(t@.subrange(0, t@.len() as int) =~= t@);
                let mut s = String::from_str("AND ");
                s.append("TagName");
                s.append(" IN (");
                s.append(list.as_str());
                s.append(")");
                proof {
                    assert(s@ =~= tag_filter_text("TagName"@, Some(t@)));
                }
                s
            },
        }
    }
}

impl SchemaProfile for DefaultProfile {
    fn name(&self) -> String {
        DefaultProfile::name(self)
    }

    fn tag_search_sql(&self, limit: usize) -> String {
        DefaultProfile::tag_search_sql(self, limit)
    }

    fn history_query_sql(&self, table: &str, start_time: &str, end_time: &str, tag_filter: &str) -> String {
        DefaultProfile::history_query_sql(self, table, start_time, end_time, tag_filter)
    }

    fn build_tag_filter(&self, tags: Option<&[String]>) -> String {
        DefaultProfile::build_tag_filter(self, tags)
    }
}

/// Resolves schema profiles by name.
#[derive(Debug, Clone, Copy)]
pub struct ProfileRegistry {}

pub open spec fn unknown_profile_text(name: Seq<char>) -> Seq<char> {
    "未知的 Schema Profile: '"@ + name + "'. 可用的 Profile: default"@
}

impl ProfileRegistry {
    /// The profile of the given name; an unknown name is a configuration error.
    pub fn get(name: &str) -> (r: Result<DefaultProfile, AppError>)
        ensures
            name@ == "default"@ ==> r.is_ok(),
            name@ != "default"@ ==> (r matches Err(AppError::Config(m)) && m@ == unknown_profile_text(name@)),
    {
        let d = String::from_str("default");
        let n = String::from_str(name);
        if n == d {
            Ok(DefaultProfile::new())
        } else {
            let mut m = String::from_str("未知的 Schema Profile: '");
            m.append(name);
            m.append("'. 可用的 Profile: default");
            Err(AppError::Config(m))
        }
    }

    pub fn default_profile() -> (r: DefaultProfile) {
        DefaultProfile::new()
    }

    /// The names of the known profiles.
    pub fn available_profiles() -> (r: Vec<String>)
        ensures
            r@.len() == 1,
            r@[0]@ == "default"@,
    {
        let mut v: Vec<String> = Vec::new();
        v.push(String::from_str("default"));
        v
    }
}

} // verus!
