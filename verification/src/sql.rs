//! Where bans are read from: the configured table and column mappings, their
//! validation, identifier quoting, and the SQL text built from them.

use vstd::prelude::*;

use crate::text::{
    chars_of, count_matches, count_occurrences, decimal, find_first, find_from, usize_to_decimal,
    lemma_find_first_matches, lemma_rfind_char_found,
    join, join_with, lemma_replace_absent, owned, replace, replace_all, rfind_char, rfind_char_in, split_any,
    split_on_any, string_of_range, strip_char, trim, trim_char, trimmed, views,
};

verus! {

// ---------------------------------------------------------------------------
// Identifiers
// ---------------------------------------------------------------------------

/// Characters allowed in configured table and column names.
pub open spec fn identifier_char(c: char) -> bool {
    ('a' <= c <= 'z') || ('A' <= c <= 'Z') || ('0' <= c <= '9') || c == '_' || c == '.'
}

/// A configured name is non-empty and made of ASCII letters, digits, `_` and `.`.
pub open spec fn valid_identifier(s: Seq<char>) -> bool {
    s.len() > 0 && forall|i: int| 0 <= i < s.len() ==> identifier_char(#[trigger] s[i])
}

/// Whether a configured table or column name is acceptable.
pub fn validate_identifier(value: &str) -> (r: bool)
    ensures
        r == valid_identifier(value@),
{
    let v = chars_of(value);
    if v.len() == 0 {
        return false;
    }
    let mut i: usize = 0;
    while i < v.len()
        invariant
            i <= v.len(),
            v@ == value@,
            forall|k: int| 0 <= k < i ==> identifier_char(#[trigger] v@[k]),
        decreases v.len() - i,
    {
        let c = v[i];
        if !(('a' <= c && c <= 'z') || ('A' <= c && c <= 'Z') || ('0' <= c && c <= '9') || c
            == '_' || c == '.') {
            assert(!identifier_char(v@[i as int]));
            return false;
        }
        i += 1;
    }
    true
}

/// An SQL identifier in double quotes, inner double quotes doubled.
pub open spec fn quoted(identifier: Seq<char>) -> Seq<char> {
    "\""@ + replace_all(identifier, "\""@, "\"\""@) + "\""@
}

/// A dotted table name with each part quoted.
pub open spec fn quoted_table(table: Seq<char>) -> Seq<char> {
    join(split_any(table, seq!['.']).map_values(|p: Seq<char>| quoted(p)), "."@)
}

/// Quotes an SQL identifier.
pub fn quote_identifier(identifier: &str) -> (r: String)
    ensures
        r@ == quoted(identifier@),
{
    proof {
        reveal_strlit("\"");
    }
    let mut out = "\"".to_owned();
    let escaped = replace(identifier, "\"", "\"\"");
    out.append(escaped.as_str());
    out.append("\"");
    out
}

/// Quotes each dot-separated part of a table name.
pub fn quote_table_name(table: &str) -> (r: String)
    ensures
        r@ == quoted_table(table@),
{
    let seps = vec!['.'];
    let parts = split_on_any(table, &seps);
    assert(seps@ =~= seq!['.']);
    let mut quoted_parts: Vec<String> = Vec::new();
    let mut i: usize = 0;
    while i < parts.len()
        invariant
            i <= parts.len(),
            views(quoted_parts@) == views(parts@).take(i as int).map_values(
                |p: Seq<char>| quoted(p),
            ),
        decreases parts.len() - i,
    {
        let q = quote_identifier(parts[i].as_str());
        let ghost before = views(quoted_parts@);
        quoted_parts.push(q);
        assert(views(quoted_parts@) =~= before.push(q@));
        assert(views(parts@).take(i + 1).map_values(|p: Seq<char>| quoted(p)) =~= views(
            parts@,
        ).take(i as int).map_values(|p: Seq<char>| quoted(p)).push(quoted(views(parts@)[i as int])));
        i += 1;
    }
    assert(views(parts@).take(parts.len() as int) =~= views(parts@));
    join_with(&quoted_parts, ".")
}

/// Quotes an SQL identifier (the same quoting as [`quote_identifier`]).
pub fn quoted_identifier(identifier: &str) -> (r: String)
    ensures
        r@ == quoted(identifier@),
{
    quote_identifier(identifier)
}

/// Quotes each dot-separated part of a table name (as [`quote_table_name`]).
pub fn quoted_table_name(table: &str) -> (r: String)
    ensures
        r@ == quoted_table(table@),
{
    quote_table_name(table)
}

// ---------------------------------------------------------------------------
// Column mappings
// ---------------------------------------------------------------------------

/// How a ban field is read: a column of the bans table, or a column of a
/// related table joined on a key (`local_key->table.remote_key::value_column`).
#[derive(Clone, Debug, PartialEq, Eq)]
pub enum ColumnMapping {
    Direct { column: String },
    Related { local_key: String, table: String, remote_key: String, value_column: String },
}

pub enum ColumnMappingView {
    Direct { column: Seq<char> },
    Related {
        local_key: Seq<char>,
        table: Seq<char>,
        remote_key: Seq<char>,
        value_column: Seq<char>,
    },
}

impl View for ColumnMapping {
    type V = ColumnMappingView;

    open spec fn view(&self) -> ColumnMappingView {
        match self {
            ColumnMapping::Direct { column } => ColumnMappingView::Direct { column: column@ },
            ColumnMapping::Related { local_key, table, remote_key, value_column } =>
                ColumnMappingView::Related {
                local_key: local_key@,
                table: table@,
                remote_key: remote_key@,
                value_column: value_column@,
            },
        }
    }
}

/// The mapping that a configured column text denotes. Trimmed, it must be
/// non-empty and hold `->` at most once. Without `->` it is a column name.
/// With it, the part before is the local key; after it comes
/// `table.remote_key::value_column`, split at the first `::` and then at the
/// last `.` before it; the table is trimmed and stripped of double quotes, the
/// other parts trimmed.
pub open spec fn column_mapping(raw: Seq<char>) -> Option<ColumnMappingView> {
    let t = trimmed(raw);
    if t.len() == 0 || count_matches(t, "->"@) > 1 {
        None
    } else {
        match find_first(t, "->"@) {
            Some(i) => {
                let local_key = trimmed(t.subrange(0, i));
                let relation = t.subrange(i + 2, t.len() as int);
                match find_first(relation, "::"@) {
                    Some(j) => {
                        let table_and_remote = relation.subrange(0, j);
                        let value_column = relation.subrange(j + 2, relation.len() as int);
                        match rfind_char(table_and_remote, '.') {
                            Some(k) => Some(
                                ColumnMappingView::Related {
                                    local_key,
                                    table: strip_char(
                                        trimmed(table_and_remote.subrange(0, k)),
                                        '"',
                                    ),
                                    remote_key: trimmed(
                                        table_and_remote.subrange(
                                            k + 1,
                                            table_and_remote.len() as int,
                                        ),
                                    ),
                                    value_column: trimmed(value_column),
                                },
                            ),
                            None => None,
                        }
                    },
                    None => None,
                }
            },
            None => Some(ColumnMappingView::Direct { column: t }),
        }
    }
}

/// The view of an optional mapping.
pub open spec fn opt_mapping_view(o: Option<ColumnMapping>) -> Option<ColumnMappingView> {
    match o {
        Some(m) => Some(m@),
        None => None,
    }
}

fn trimmed_string(s: String) -> (r: String)
    ensures
        r@ == trimmed(s@),
{
    owned(trim(s.as_str()))
}

/// Parses a configured column mapping (see [`column_mapping`]).
#[verifier::spinoff_prover]
pub fn parse_column_mapping(raw: &str) -> (r: Option<ColumnMapping>)
    ensures
        opt_mapping_view(r) == column_mapping(raw@),
{
    proof {
        reveal_strlit("->");
        reveal_strlit("::");
    }
    let trimmed_raw = trim(raw);
    let v = chars_of(trimmed_raw);
    let arrow = chars_of("->");
    let colons = chars_of("::");
    if v.len() == 0 || count_occurrences(&v, &arrow) > 1 {
        return None;
    }
    let n = v.len();
    assert(v@.subrange(0, n as int) =~= v@);
    proof {
        lemma_find_first_matches(v@, arrow@);
    }
    match find_from(&v, &arrow, 0) {
        Some(i) => {
            let local_key = trimmed_string(string_of_range(&v, 0, i));
            let ghost relation = v@.subrange(i + 2, n as int);
            proof {
                lemma_find_first_matches(relation, colons@);
            }
            match find_from(&v, &colons, i + 2) {
                Some(j) => {
                    let ghost table_and_remote = relation.subrange(0, j - i - 2);
                    assert(table_and_remote =~= v@.subrange(i + 2, j as int));
                    assert(relation.subrange(j - i - 2 + 2, relation.len() as int) =~= v@.subrange(
                        j + 2,
                        n as int,
                    ));
                    proof {
                        lemma_rfind_char_found(table_and_remote, '.');
                    }
                    match rfind_char_in(&v, '.', i + 2, j) {
                        Some(k) => {
                            assert(table_and_remote.subrange(0, k - i - 2) =~= v@.subrange(
                                i + 2,
                                k as int,
                            ));
                            assert(table_and_remote.subrange(
                                k - i - 2 + 1,
                                table_and_remote.len() as int,
                            ) =~= v@.subrange(k + 1, j as int));
                            let table_raw = trimmed_string(string_of_range(&v, i + 2, k));
                            let table = owned(trim_char(table_raw.as_str(), '"'));
                            let remote_key = trimmed_string(string_of_range(&v, k + 1, j));
                            let value_column = trimmed_string(string_of_range(&v, j + 2, n));
                            Some(ColumnMapping::Related { local_key, table, remote_key, value_column })
                        },
                        None => None,
                    }
                },
                None => None,
            }
        },
        None => Some(ColumnMapping::Direct { column: owned(trimmed_raw) }),
    }
}

/// The state threaded through the select expressions: the number of joined
/// relations so far and their `LEFT JOIN` clauses.
pub open spec fn select_expression_view(
    table_alias: Seq<char>,
    raw: Seq<char>,
    index: int,
    joins: Seq<Seq<char>>,
) -> Option<(Seq<char>, int, Seq<Seq<char>>)> {
    match column_mapping(raw) {
        None => None,
        Some(ColumnMappingView::Direct { column }) => Some(
            (table_alias + "."@ + quoted(column), index, joins),
        ),
        Some(ColumnMappingView::Related { local_key, table, remote_key, value_column }) => {
            let alias = "rel_"@ + decimal(index);
            Some(
                (
                    alias + "."@ + quoted(value_column),
                    index + 1,
                    joins.push(
                        "LEFT JOIN "@ + quoted_table(table) + " AS "@ + alias + " ON "@
                            + table_alias + "."@ + quoted(local_key) + " = "@ + alias + "."@
                            + quoted(remote_key),
                    ),
                ),
            )
        },
    }
}

/// The SQL expression that reads a mapped field; a related column adds a
/// `LEFT JOIN` to `joins` under the next `rel_N` alias.
pub fn select_expression(
    table_alias: &str,
    raw_mapping: &str,
    relation_alias_index: &mut usize,
    joins: &mut Vec<String>,
) -> (r: Option<String>)
    requires
        column_mapping(raw_mapping@) matches Some(ColumnMappingView::Related { .. })
            ==> *old(relation_alias_index) < usize::MAX,
    ensures
        match select_expression_view(
            table_alias@,
            raw_mapping@,
            *old(relation_alias_index) as int,
            views(old(joins)@),
        ) {
            None => r is None && *final(relation_alias_index) == *old(relation_alias_index)
                && final(joins)@ == old(joins)@,
            Some((expr, index, js)) => r matches Some(e) && e@ == expr
                && *final(relation_alias_index) as int == index && views(final(joins)@) == js,
        },
{
    match parse_column_mapping(raw_mapping) {
        None => None,
        Some(ColumnMapping::Direct { column }) => {
            let mut expr = table_alias.to_owned();
            expr.append(".");
            expr.append(quoted_identifier(column.as_str()).as_str());
            Some(expr)
        },
        Some(ColumnMapping::Related { local_key, table, remote_key, value_column }) => {
            let mut alias = "rel_".to_owned();
            alias.append(usize_to_decimal(*relation_alias_index).as_str());
            *relation_alias_index = *relation_alias_index + 1;
            let mut join_sql = "LEFT JOIN ".to_owned();
            join_sql.append(quoted_table_name(table.as_str()).as_str());
            join_sql.append(" AS ");
            join_sql.append(alias.as_str());
            join_sql.append(" ON ");
            join_sql.append(table_alias);
            join_sql.append(".");
            join_sql.append(quoted_identifier(local_key.as_str()).as_str());
            join_sql.append(" = ");
            join_sql.append(alias.as_str());
            join_sql.append(".");
            join_sql.append(quoted_identifier(remote_key.as_str()).as_str());
            let ghost before = views(joins@);
            joins.push(join_sql);
            assert(views(joins@) =~= before.push(join_sql@));
            let mut expr = alias;
            expr.append(".");
            expr.append(quoted_identifier(value_column.as_str()).as_str());
            Some(expr)
        },
    }
}

/// The column of the bans table that the ban id is filtered on: the column
/// itself, or the local key of a related mapping.
pub open spec fn filter_column(raw: Seq<char>) -> Option<Seq<char>> {
    match column_mapping(raw) {
        Some(ColumnMappingView::Direct { column }) => Some(column),
        Some(ColumnMappingView::Related { local_key, .. }) => Some(local_key),
        None => None,
    }
}

/// The bans-table column that the id mapping filters on.
pub fn base_filter_column(raw_mapping: &str) -> (r: Option<String>)
    ensures
        (match r {
            Some(c) => Some(c@),
            None => None,
        }) == filter_column(raw_mapping@),
{
    match parse_column_mapping(raw_mapping) {
        Some(ColumnMapping::Direct { column }) => Some(column),
        Some(ColumnMapping::Related { local_key, .. }) => Some(local_key),
        None => None,
    }
}

// ---------------------------------------------------------------------------
// The ban source
// ---------------------------------------------------------------------------

/// Source table and columns used to load ban rows.
#[derive(Clone, Debug, PartialEq, Eq)]
pub struct BanSource {
    pub table: String,
    pub id_col: String,
    pub intruder_col: String,
    pub admin_col: String,
    pub kind_col: String,
    pub round_id_col: String,
    pub server_col: String,
    pub created_at_col: String,
    pub duration_end_col: String,
    pub reason_col: String,
}

/// The configured names of a [`BanSource`], in field order, each with the
/// environment variable that sets it. The creation column is not configured.
pub open spec fn source_settings(s: BanSource) -> Seq<(Seq<char>, Seq<char>)> {
    seq![
        ("BANS_TABLE"@, s.table@),
        ("BANS_COL_ID"@, s.id_col@),
        ("BANS_COL_INTRUDER"@, s.intruder_col@),
        ("BANS_COL_ADMIN"@, s.admin_col@),
        ("BANS_COL_TYPE"@, s.kind_col@),
        ("BANS_COL_ROUND_ID"@, s.round_id_col@),
        ("BANS_COL_SERVER"@, s.server_col@),
        ("BANS_COL_DURATION_END"@, s.duration_end_col@),
        ("BANS_COL_REASON"@, s.reason_col@),
    ]
}

/// A configured name that is not acceptable, with the variable that set it.
#[derive(Clone, Debug, PartialEq, Eq)]
pub struct InvalidSetting {
    pub field: String,
    pub value: String,
}

/// The value of `key` in an environment listing, or `default` when unset.
pub open spec fn env_value(env: Seq<(Seq<char>, Seq<char>)>, key: Seq<char>, default: Seq<char>) -> Seq<
    char,
>
    decreases env.len(),
{
    if env.len() == 0 {
        default
    } else if env[0].0 == key {
        env[0].1
    } else {
        env_value(env.drop_first(), key, default)
    }
}

/// The views of an environment listing.
pub open spec fn env_views(env: Seq<(String, String)>) -> Seq<(Seq<char>, Seq<char>)> {
    env.map_values(|p: (String, String)| (p.0@, p.1@))
}

/// The value of the variable `key`, or `default` when it is unset.
pub fn read_env_or_default(env: &Vec<(String, String)>, key: &str, default: &str) -> (r: String)
    ensures
        r@ == env_value(env_views(env@), key@, default@),
{
    let ghost all = env_views(env@);
    let wanted = key.to_owned();
    let n = env.len();
    let mut i: usize = 0;
    assert(all.subrange(0, n as int) =~= all);
    while i < n
        invariant
            n == env@.len(),
            all == env_views(env@),
            wanted@ == key@,
            i <= n,
            env_value(all.subrange(i as int, n as int), key@, default@) == env_value(
                all,
                key@,
                default@,
            ),
        decreases n - i,
    {
        let ghost rest = all.subrange(i as int, n as int);
        assert(rest[0] == (env@[i as int].0@, env@[i as int].1@));
        if env[i].0 == wanted {
            return env[i].1.clone();
        }
        assert(rest.drop_first() =~= all.subrange(i + 1, n as int));
        i += 1;
    }
    default.to_owned()
}

/// The first setting whose value is no valid identifier, if any.
pub open spec fn first_invalid(settings: Seq<(Seq<char>, Seq<char>)>) -> Option<(Seq<char>, Seq<char>)>
    decreases settings.len(),
{
    if settings.len() == 0 {
        None
    } else if !valid_identifier(settings[0].1) {
        Some(settings[0])
    } else {
        first_invalid(settings.drop_first())
    }
}

/// The ban source that an environment configures: each name read from its
/// variable or defaulted (`bans`, `id`, `intruder`, `admin`, `type`,
/// `round_id`, `server`, `duration_end`, `reason`); the creation column is
/// always `created_at`.
pub open spec fn configured_source(env: Seq<(Seq<char>, Seq<char>)>, s: BanSource) -> bool {
    &&& s.table@ == env_value(env, "BANS_TABLE"@, "bans"@)
    &&& s.id_col@ == env_value(env, "BANS_COL_ID"@, "id"@)
    &&& s.intruder_col@ == env_value(env, "BANS_COL_INTRUDER"@, "intruder"@)
    &&& s.admin_col@ == env_value(env, "BANS_COL_ADMIN"@, "admin"@)
    &&& s.kind_col@ == env_value(env, "BANS_COL_TYPE"@, "type"@)
    &&& s.round_id_col@ == env_value(env, "BANS_COL_ROUND_ID"@, "round_id"@)
    &&& s.server_col@ == env_value(env, "BANS_COL_SERVER"@, "server"@)
    &&& s.created_at_col@ == "created_at"@
    &&& s.duration_end_col@ == env_value(env, "BANS_COL_DURATION_END"@, "duration_end"@)
    &&& s.reason_col@ == env_value(env, "BANS_COL_REASON"@, "reason"@)
}

/// Reads the ban source from the environment (`key`, `value` pairs) and
/// checks every configured name; the first invalid one is reported.
pub fn load_ban_source_from_env(env: &Vec<(String, String)>) -> (r: Result<BanSource, InvalidSetting>)
    ensures
        exists|s: BanSource|
            configured_source(env_views(env@), s) && match r {
                Ok(source) => source == s && first_invalid(source_settings(s)) is None,
                Err(e) => first_invalid(source_settings(s)) == Some((e.field@, e.value@)),
            },
{
    let source = BanSource {
        table: read_env_or_default(env, "BANS_TABLE", "bans"),
        id_col: read_env_or_default(env, "BANS_COL_ID", "id"),
        intruder_col: read_env_or_default(env, "BANS_COL_INTRUDER", "intruder"),
        admin_col: read_env_or_default(env, "BANS_COL_ADMIN", "admin"),
        kind_col: read_env_or_default(env, "BANS_COL_TYPE", "type"),
        round_id_col: read_env_or_default(env, "BANS_COL_ROUND_ID", "round_id"),
        server_col: read_env_or_default(env, "BANS_COL_SERVER", "server"),
        created_at_col: "created_at".to_owned(),
        duration_end_col: read_env_or_default(env, "BANS_COL_DURATION_END", "duration_end"),
        reason_col: read_env_or_default(env, "BANS_COL_REASON", "reason"),
    };
    let settings: Vec<(&str, &String)> = vec![
        ("BANS_TABLE", &source.table),
        ("BANS_COL_ID", &source.id_col),
        ("BANS_COL_INTRUDER", &source.intruder_col),
        ("BANS_COL_ADMIN", &source.admin_col),
        ("BANS_COL_TYPE", &source.kind_col),
        ("BANS_COL_ROUND_ID", &source.round_id_col),
        ("BANS_COL_SERVER", &source.server_col),
        ("BANS_COL_DURATION_END", &source.duration_end_col),
        ("BANS_COL_REASON", &source.reason_col),
    ];
    let ghost all = source_settings(source);
    assert(settings@.map_values(|p: (&str, &String)| (p.0@, p.1@)) =~= all);
    let mut i: usize = 0;
    assert(all.subrange(0, 9) =~= all);
    while i < settings.len()
        invariant
            i <= settings@.len(),
            settings@.len() == 9,
            all == source_settings(source),
            configured_source(env_views(env@), source),
            settings@.map_values(|p: (&str, &String)| (p.0@, p.1@)) == all,
            first_invalid(all.subrange(i as int, 9)) == first_invalid(all),
        decreases settings.len() - i,
    {
        let ghost rest = all.subrange(i as int, 9);
        let (field, value) = settings[i];
        assert(rest[0] == (field@, value@));
        if !validate_identifier(value.as_str()) {
            let e = InvalidSetting { field: field.to_owned(), value: value.clone() };
            assert(configured_source(env_views(env@), source));
            return Err(e);
        }
        assert(rest.drop_first() =~= all.subrange(i + 1, 9));
        i += 1;
    }
    assert(configured_source(env_views(env@), source));
    Ok(source)
}

// ---------------------------------------------------------------------------
// The ban query
// ---------------------------------------------------------------------------

/// The mappings that the ban query reads, in column order, each with its
/// variable name.
pub open spec fn query_columns(s: BanSource) -> Seq<(Seq<char>, Seq<char>)> {
    seq![
        ("BANS_COL_ID"@, s.id_col@),
        ("BANS_COL_INTRUDER"@, s.intruder_col@),
        ("BANS_COL_ADMIN"@, s.admin_col@),
        ("BANS_COL_TYPE"@, s.kind_col@),
        ("BANS_COL_ROUND_ID"@, s.round_id_col@),
        ("BANS_COL_SERVER"@, s.server_col@),
        ("BANS_COL_CREATED_AT"@, s.created_at_col@),
        ("BANS_COL_DURATION_END"@, s.duration_end_col@),
        ("BANS_COL_REASON"@, s.reason_col@),
    ]
}

/// The select expressions of the mapped columns, the join counter and the
/// join clauses; or the first mapping that cannot be read.
pub open spec fn select_all(columns: Seq<(Seq<char>, Seq<char>)>) -> Result<
    (Seq<Seq<char>>, int, Seq<Seq<char>>),
    (Seq<char>, Seq<char>),
>
    decreases columns.len(),
{
    if columns.len() == 0 {
        Ok((Seq::empty(), 0, Seq::empty()))
    } else {
        match select_all(columns.drop_last()) {
            Err(e) => Err(e),
            Ok((exprs, index, joins)) => match select_expression_view(
                "bans_src"@,
                columns.last().1,
                index,
                joins,
            ) {
                None => Err(columns.last()),
                Some((expr, next_index, next_joins)) => Ok(
                    (exprs.push(expr), next_index, next_joins),
                ),
            },
        }
    }
}

/// The select list of the ban query, up to its `FROM` clause.
pub open spec fn select_clause(exprs: Seq<Seq<char>>) -> Seq<char> {
    "SELECT\n            "@ + exprs[0] + "::int4 AS id,\n            COALESCE("@ + exprs[1] + "::text, '') AS intruder,\n            COALESCE("@ + exprs[2] + "::text, '') AS admin,\n            COALESCE("@ + exprs[3] + "::text, '') AS kind,\n            COALESCE("@ + exprs[4] + "::int4, 0) AS round_id,\n            COALESCE("@ + exprs[5] + "::text, '') AS server,\n            COALESCE("@ + exprs[6] + "::text, '') AS created_at,\n            COALESCE("@ + exprs[7] + "::text, '') AS duration_end,\n            COALESCE("@ + exprs[8] + "::text, '') AS reason\n         "@
}

/// The text of the ban query.
pub open spec fn ban_query_text(
    exprs: Seq<Seq<char>>,
    table: Seq<char>,
    joins_sql: Seq<char>,
    id_col: Seq<char>,
) -> Seq<char> {
    select_clause(exprs) + "FROM "@ + table + " AS bans_src"@ + "\n         "@ + joins_sql
        + "\n         "@ + "WHERE bans_src."@ + id_col + " = $1"@ + "\n         LIMIT 1"@
}

/// The query that loads one ban by id from the configured source, or the
/// first column mapping that cannot be read.
pub open spec fn ban_query(s: BanSource) -> Result<Seq<char>, (Seq<char>, Seq<char>)> {
    match select_all(query_columns(s)) {
        Err(e) => Err(e),
        Ok((exprs, _, joins)) => match filter_column(s.id_col@) {
            None => Err(("BANS_COL_ID"@, s.id_col@)),
            Some(col) => Ok(
                ban_query_text(
                    exprs,
                    quoted_table(s.table@),
                    join(joins, "\n         "@),
                    quoted(col),
                ),
            ),
        },
    }
}

/// Builds the query that loads a ban (see [`ban_query`]); `$1` is the ban id.
pub fn ban_record_query(source: &BanSource) -> (r: Result<String, InvalidSetting>)
    ensures
        match ban_query(*source) {
            Ok(q) => r matches Ok(s) && s@ == q,
            Err((field, value)) => r matches Err(e) && e.field@ == field && e.value@ == value,
        },
{
    let columns: Vec<(&str, &String)> = vec![
        ("BANS_COL_ID", &source.id_col),
        ("BANS_COL_INTRUDER", &source.intruder_col),
        ("BANS_COL_ADMIN", &source.admin_col),
        ("BANS_COL_TYPE", &source.kind_col),
        ("BANS_COL_ROUND_ID", &source.round_id_col),
        ("BANS_COL_SERVER", &source.server_col),
        ("BANS_COL_CREATED_AT", &source.created_at_col),
        ("BANS_COL_DURATION_END", &source.duration_end_col),
        ("BANS_COL_REASON", &source.reason_col),
    ];
    let ghost all = query_columns(*source);
    assert(columns@.map_values(|p: (&str, &String)| (p.0@, p.1@)) =~= all);
    let mut joins: Vec<String> = Vec::new();
    let mut relation_alias_index: usize = 0;
    let mut exprs: Vec<String> = Vec::new();
    let mut i: usize = 0;
    assert(all.take(0) =~= Seq::<(Seq<char>, Seq<char>)>::empty());
    assert(views(exprs@) =~= Seq::<Seq<char>>::empty());
    assert(views(joins@) =~= Seq::<Seq<char>>::empty());
    while i < columns.len()
        invariant
            i <= columns@.len(),
            columns@.len() == 9,
            all == query_columns(*source),
            columns@.map_values(|p: (&str, &String)| (p.0@, p.1@)) == all,
            relation_alias_index <= i,
            exprs@.len() == i,
            select_all(all.take(i as int)) == Ok::<
                (Seq<Seq<char>>, int, Seq<Seq<char>>),
                (Seq<char>, Seq<char>),
            >((views(exprs@), relation_alias_index as int, views(joins@))),
        decreases columns.len() - i,
    {
        let (field, raw) = columns[i];
        assert(all.take(i + 1).drop_last() =~= all.take(i as int));
        assert(all.take(i + 1).last() == (field@, raw@));
        let ghost before_exprs = views(exprs@);
        match select_expression("bans_src", raw.as_str(), &mut relation_alias_index, &mut joins) {
            None => {
                proof {
                    lemma_select_all_err(all, i as int + 1);
                }
                return Err(InvalidSetting { field: field.to_owned(), value: raw.clone() });
            },
            Some(expr) => {
                exprs.push(expr);
                assert(views(exprs@) =~= before_exprs.push(expr@));
            },
        }
        i += 1;
    }
    assert(all.take(9) =~= all);
    let id_filter_col = match base_filter_column(source.id_col.as_str()) {
        Some(c) => c,
        None => {
            return Err(InvalidSetting { field: "BANS_COL_ID".to_owned(), value: source.id_col.clone() });
        },
    };
    let joins_sql_owned = join_with(&joins, "\n         ");
    let joins_sql = joins_sql_owned.as_str();
    let table_owned = quoted_table_name(source.table.as_str());
    let table = table_owned.as_str();
    let id_col_owned = quoted_identifier(id_filter_col.as_str());
    let id_col = id_col_owned.as_str();
    assert(exprs@[0]@ == views(exprs@)[0]);
    let mut query = "SELECT\n            ".to_owned();
    query.append(exprs[0].as_str());
    query.append("::int4 AS id,\n            COALESCE(");
    query.append(exprs[1].as_str());
    query.append("::text, '') AS intruder,\n            COALESCE(");
    query.append(exprs[2].as_str());
    query.append("::text, '') AS admin,\n            COALESCE(");
    query.append(exprs[3].as_str());
    query.append("::text, '') AS kind,\n            COALESCE(");
    query.append(exprs[4].as_str());
    query.append("::int4, 0) AS round_id,\n            COALESCE(");
    query.append(exprs[5].as_str());
    query.append("::text, '') AS server,\n            COALESCE(");
    query.append(exprs[6].as_str());
    query.append("::text, '') AS created_at,\n            COALESCE(");
    query.append(exprs[7].as_str());
    query.append("::text, '') AS duration_end,\n            COALESCE(");
    query.append(exprs[8].as_str());
    query.append("::text, '') AS reason\n         ");
    query.append("FROM ");
    query.append(table);
    query.append(" AS bans_src");
    query.append("\n         ");
    query.append(joins_sql);
    query.append("\n         ");
    query.append("WHERE bans_src.");
    query.append(id_col);
    query.append(" = $1");
    query.append("\n         LIMIT 1");
    Ok(query)
}

/// An error in a prefix of the columns is the error of all of them.
proof fn lemma_select_all_err(columns: Seq<(Seq<char>, Seq<char>)>, k: int)
    requires
        0 <= k <= columns.len(),
        select_all(columns.take(k)) is Err,
    ensures
        select_all(columns) == select_all(columns.take(k)),
    decreases columns.len() - k,
{
    if k < columns.len() {
        let next = columns.take(k + 1);
        assert(next.drop_last() =~= columns.take(k));
        lemma_select_all_err(columns, k + 1);
    } else {
        assert(columns.take(k) =~= columns);
    }
}

// ---------------------------------------------------------------------------
// The notification trigger
// ---------------------------------------------------------------------------

/// The trigger function that queues and notifies ban events; `id_col` is the
/// quoted id column.
pub open spec fn notify_function_text(id_col: Seq<char>) -> Seq<char> {
    "CREATE OR REPLACE FUNCTION notify_ban_events()\n        RETURNS TRIGGER\n        LANGUAGE plpgsql\n        AS $$\n        DECLARE\n            event_name ban_event_type;\n        BEGIN\n            IF TG_OP = 'INSERT' THEN\n                event_name := 'added'::ban_event_type;\n            ELSIF TG_OP = 'UPDATE' THEN\n                event_name := 'edited'::ban_event_type;\n            ELSE\n                RETURN NEW;\n            END IF;\n            INSERT INTO ban_events (ban_id, event_type)\n            VALUES (NEW."@ + id_col + ", event_name)\n            ON CONFLICT (ban_id) DO NOTHING;\n            IF event_name = 'added' THEN\n                PERFORM pg_notify('ban_added', NEW."@ + id_col + "::text);\n            ELSE\n                PERFORM pg_notify('ban_edited', NEW."@ + id_col + "::text);\n            END IF;\n            RETURN NEW;\n        END;\n        $$"@
}

/// Builds the trigger function SQL for the quoted id column `id_col`.
pub fn notify_function_sql(id_col: &str) -> (r: String)
    ensures
        r@ == notify_function_text(id_col@),
{
    let mut sql = "CREATE OR REPLACE FUNCTION notify_ban_events()\n        RETURNS TRIGGER\n        LANGUAGE plpgsql\n        AS $$\n        DECLARE\n            event_name ban_event_type;\n        BEGIN\n            IF TG_OP = 'INSERT' THEN\n                event_name := 'added'::ban_event_type;\n            ELSIF TG_OP = 'UPDATE' THEN\n                event_name := 'edited'::ban_event_type;\n            ELSE\n                RETURN NEW;\n            END IF;\n            INSERT INTO ban_events (ban_id, event_type)\n            VALUES (NEW.".to_owned();
    sql.append(id_col);
    sql.append(", event_name)\n            ON CONFLICT (ban_id) DO NOTHING;\n            IF event_name = 'added' THEN\n                PERFORM pg_notify('ban_added', NEW.");
    sql.append(id_col);
    sql.append("::text);\n            ELSE\n                PERFORM pg_notify('ban_edited', NEW.");
    sql.append(id_col);
    sql.append("::text);\n            END IF;\n            RETURN NEW;\n        END;\n        $$");
    sql
}

/// Name of the trigger on a bans table: the table name with dots turned into
/// underscores, then `_notify_events_trigger`.
pub open spec fn trigger_name_text(table: Seq<char>) -> Seq<char> {
    replace_all(table, "."@, "_"@) + "_notify_events_trigger"@
}

/// The name of the trigger on `table`.
pub fn trigger_name(table: &str) -> (r: String)
    ensures
        r@ == trigger_name_text(table@),
{
    proof {
        reveal_strlit(".");
    }
    let mut name = replace(table, ".", "_");
    name.append("_notify_events_trigger");
    name
}

/// The statement that creates the trigger `trigger_name` on the quoted table
/// `table` unless it exists.
pub open spec fn notify_trigger_text(trigger_name: Seq<char>, table: Seq<char>) -> Seq<char> {
    "DO $$\n        BEGIN\n            IF NOT EXISTS (\n                SELECT 1\n                FROM pg_trigger\n                WHERE tgname = '"@ + trigger_name + "'\n            ) THEN\n                CREATE TRIGGER "@ + trigger_name + "\n                AFTER INSERT OR UPDATE ON "@ + table + "\n                FOR EACH ROW\n                EXECUTE FUNCTION notify_ban_events();\n            END IF;\n        END;\n        $$"@
}

/// Builds the trigger creation SQL.
pub fn notify_trigger_sql(trigger_name: &str, table: &str) -> (r: String)
    ensures
        r@ == notify_trigger_text(trigger_name@, table@),
{
    let mut sql = "DO $$\n        BEGIN\n            IF NOT EXISTS (\n                SELECT 1\n                FROM pg_trigger\n                WHERE tgname = '".to_owned();
    sql.append(trigger_name);
    sql.append("'\n            ) THEN\n                CREATE TRIGGER ");
    sql.append(trigger_name);
    sql.append("\n                AFTER INSERT OR UPDATE ON ");
    sql.append(table);
    sql.append("\n                FOR EACH ROW\n                EXECUTE FUNCTION notify_ban_events();\n            END IF;\n        END;\n        $$");
    sql
}


// ---------------------------------------------------------------------------
// Laws
// ---------------------------------------------------------------------------

/// `q` holds `part` somewhere.
pub open spec fn contains_text(q: Seq<char>, part: Seq<char>) -> bool {
    exists|pre: Seq<char>, post: Seq<char>| q == pre + part + post
}

/// The ban query reads from the configured table, each dot-separated part of
/// its name quoted on its own, under the alias `bans_src`, and selects the
/// row whose id column (the mapped column, or the local key of a related
/// mapping), quoted, equals the parameter `$1`.
pub proof fn lemma_ban_query_from_table(s: BanSource)
    ensures
        ban_query(s) matches Ok(q) ==> contains_text(
            q,
            "FROM "@ + quoted_table(s.table@) + " AS bans_src"@,
        ),
        ban_query(s) matches Ok(q) ==> (filter_column(s.id_col@) matches Some(col)
            && contains_text(q, "WHERE bans_src."@ + quoted(col) + " = $1"@)),
{
    if let Ok(q) = ban_query(s) {
        if let Ok((exprs, _, joins)) = select_all(query_columns(s)) {
            if let Some(col) = filter_column(s.id_col@) {
                let part = "FROM "@ + quoted_table(s.table@) + " AS bans_src"@;
                let pre = select_clause(exprs);
                let post = "\n         "@ + join(joins, "\n         "@) + "\n         "@
                    + "WHERE bans_src."@ + quoted(col) + " = $1"@ + "\n         LIMIT 1"@;
                assert(q =~= pre + part + post);
                let part2 = "WHERE bans_src."@ + quoted(col) + " = $1"@;
                let pre2 = pre + part + "\n         "@ + join(joins, "\n         "@)
                    + "\n         "@;
                let post2 = "\n         LIMIT 1"@;
                assert(q =~= pre2 + part2 + post2);
            }
        }
    }
}

/// A schema-qualified table name is quoted part by part:
/// `schema.name` becomes `"schema"."name"`.
pub proof fn lemma_dotted_table_quoting(schema: Seq<char>, name: Seq<char>)
    requires
        !schema.contains('.'),
        !name.contains('.'),
    ensures
        quoted_table(schema + "."@ + name) == quoted(schema) + "."@ + quoted(name),
{
    reveal_strlit(".");
    let dot = seq!['.'];
    assert forall|i: int| 0 <= i < schema.len() implies !dot.contains(#[trigger] schema[i]) by {
        if dot.contains(schema[i]) {
            assert(schema.contains(schema[i]));
        }
    }
    assert forall|i: int| 0 <= i < name.len() implies !dot.contains(#[trigger] name[i]) by {
        if dot.contains(name[i]) {
            assert(name.contains(name[i]));
        }
    }
    crate::text::lemma_split_single(schema, dot);
    assert(dot.contains('.')) by {
        assert(dot[0] == '.');
    }
    let head = schema + "."@;
    assert(head.drop_last() =~= schema);
    assert(split_any(head, dot) =~= seq![schema, Seq::<char>::empty()]);
    crate::text::lemma_split_append_plain(head, name, dot);
    assert(head + name =~= schema + "."@ + name);
    let pieces = seq![schema, name];
    assert(split_any(schema + "."@ + name, dot) =~= pieces);
    assert(pieces.map_values(|p: Seq<char>| quoted(p)) =~= seq![quoted(schema), quoted(name)]);
    let qs = seq![quoted(schema), quoted(name)];
    assert(qs.drop_last() =~= seq![quoted(schema)]);
    assert(join(qs.drop_last(), "."@) == quoted(schema));
    assert(join(qs, "."@) == quoted(schema) + "."@ + quoted(name));
    assert(quoted_table(schema + "."@ + name) == join(qs, "."@));
}

/// A table name without dots is quoted as one identifier.
pub proof fn lemma_undotted_table_quoting(table: Seq<char>)
    requires
        !table.contains('.'),
    ensures
        quoted_table(table) == quoted(table),
{
    assert forall|i: int| 0 <= i < table.len() implies !seq!['.'].contains(#[trigger] table[i]) by {
        if seq!['.'].contains(table[i]) {
            let k = choose|k: int| 0 <= k < 1 && seq!['.'][k] == table[i];
            assert(table.contains(table[i]));
        }
    }
    crate::text::lemma_split_single(table, seq!['.']);
    assert(split_any(table, seq!['.']).map_values(|p: Seq<char>| quoted(p)) =~= seq![quoted(table)]);
}

/// A valid identifier of one part is accepted and quoted unchanged inside the
/// quotes: it holds no double quote to escape.
pub proof fn lemma_valid_identifier_quoting(identifier: Seq<char>)
    requires
        valid_identifier(identifier),
    ensures
        quoted(identifier) == "\""@ + identifier + "\""@,
{
    reveal_strlit("\"");
    lemma_replace_absent(identifier, "\""@, "\"\""@);
}

} // verus!
