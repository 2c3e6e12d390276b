use glowing_spork::sql::{
    ban_record_query, base_filter_column, load_ban_source_from_env, notify_function_sql,
    notify_trigger_sql, parse_column_mapping, quote_identifier, quote_table_name, quoted_identifier,
    quoted_table_name, select_expression, trigger_name, validate_identifier, BanSource,
    ColumnMapping, InvalidSetting,
};

fn default_source() -> BanSource {
    load_ban_source_from_env(&Vec::new()).unwrap()
}

#[test]
fn identifiers() {
    assert!(validate_identifier("public.ban_records"));
    assert!(validate_identifier("Col_9"));
    assert!(!validate_identifier(""));
    assert!(!validate_identifier("bad col"));
    assert!(!validate_identifier("a->b.c::d"));
    assert_eq!(quote_identifier("id"), "\"id\"");
    assert_eq!(quote_identifier("a\"b"), "\"a\"\"b\"");
    assert_eq!(quoted_identifier("a\"b"), "\"a\"\"b\"");
    assert_eq!(quote_table_name("public.ban_records"), "\"public\".\"ban_records\"");
    assert_eq!(quoted_table_name("bans"), "\"bans\"");
    assert_eq!(quote_table_name("a..b"), "\"a\".\"\".\"b\"");
}

#[test]
fn column_mappings() {
    assert_eq!(
        parse_column_mapping("  reason "),
        Some(ColumnMapping::Direct { column: "reason".to_owned() })
    );
    assert_eq!(
        parse_column_mapping("admin_id -> \"public.users\".id :: name"),
        Some(ColumnMapping::Related {
            local_key: "admin_id".to_owned(),
            table: "public.users".to_owned(),
            remote_key: "id".to_owned(),
            value_column: "name".to_owned(),
        })
    );
    assert_eq!(parse_column_mapping(""), None);
    assert_eq!(parse_column_mapping("a->b.c::d->e"), None);
    assert_eq!(parse_column_mapping("a->b.c"), None);
    assert_eq!(parse_column_mapping("a->bc::d"), None);
    assert_eq!(base_filter_column("admin_id->users.id::name"), Some("admin_id".to_owned()));
    assert_eq!(base_filter_column("id"), Some("id".to_owned()));
    assert_eq!(base_filter_column("   "), None);
}

#[test]
fn select_expressions_and_joins() {
    let mut index = 0usize;
    let mut joins = Vec::new();
    assert_eq!(
        select_expression("bans_src", "intruder", &mut index, &mut joins),
        Some("bans_src.\"intruder\"".to_owned())
    );
    assert_eq!(index, 0);
    assert_eq!(
        select_expression("bans_src", "admin_id->public.users.id::name", &mut index, &mut joins),
        Some("rel_0.\"name\"".to_owned())
    );
    assert_eq!(index, 1);
    assert_eq!(
        joins,
        vec!["LEFT JOIN \"public\".\"users\" AS rel_0 ON bans_src.\"admin_id\" = rel_0.\"id\"".to_owned()]
    );
    assert_eq!(select_expression("bans_src", "a->b", &mut index, &mut joins), None);
    assert_eq!(index, 1);
    assert_eq!(joins.len(), 1);
}

#[test]
fn ban_source_defaults_and_validation() {
    let s = default_source();
    assert_eq!(s.table, "bans");
    assert_eq!(s.id_col, "id");
    assert_eq!(s.kind_col, "type");
    assert_eq!(s.created_at_col, "created_at");
    assert_eq!(s.duration_end_col, "duration_end");
    let env = vec![
        ("BANS_TABLE".to_owned(), "public.ban_records".to_owned()),
        ("BANS_COL_ID".to_owned(), "ban_id".to_owned()),
        ("UNRELATED".to_owned(), "x y".to_owned()),
    ];
    let s = load_ban_source_from_env(&env).unwrap();
    assert_eq!(s.table, "public.ban_records");
    assert_eq!(s.id_col, "ban_id");
    assert_eq!(s.reason_col, "reason");
    let env = vec![
        ("BANS_COL_SERVER".to_owned(), "bad col".to_owned()),
        ("BANS_COL_ADMIN".to_owned(), "".to_owned()),
    ];
    assert_eq!(
        load_ban_source_from_env(&env),
        Err(InvalidSetting { field: "BANS_COL_ADMIN".to_owned(), value: "".to_owned() })
    );
}

#[test]
fn creation_column_is_not_configured() {
    let env = vec![("BANS_COL_CREATED_AT".to_owned(), "a-b".to_owned())];
    let s = load_ban_source_from_env(&env).unwrap();
    assert_eq!(s.created_at_col, "created_at");
}

#[test]
fn direct_mapping_takes_no_alias_at_any_index() {
    let mut index = usize::MAX;
    let mut joins: Vec<String> = Vec::new();
    assert_eq!(
        select_expression("bans_src", " intruder ", &mut index, &mut joins),
        Some("bans_src.\"intruder\"".to_owned())
    );
    assert_eq!(index, usize::MAX);
    assert!(joins.is_empty());
    assert_eq!(select_expression("bans_src", "", &mut index, &mut joins), None);
    assert_eq!(index, usize::MAX);
}

#[test]
fn ban_query_for_the_default_source() {
    let q = ban_record_query(&default_source()).unwrap();
    let expected = format!(
        "SELECT
            {id_expr}::int4 AS id,
            COALESCE({intruder_expr}::text, '') AS intruder,
            COALESCE({admin_expr}::text, '') AS admin,
            COALESCE({kind_expr}::text, '') AS kind,
            COALESCE({round_id_expr}::int4, 0) AS round_id,
            COALESCE({server_expr}::text, '') AS server,
            COALESCE({created_at_expr}::text, '') AS created_at,
            COALESCE({duration_end_expr}::text, '') AS duration_end,
            COALESCE({reason_expr}::text, '') AS reason
         FROM {table_name} AS {base_alias}
         {joins_sql}
         WHERE {base_alias}.{id_col} = $1
         LIMIT 1",
        id_expr = "bans_src.\"id\"",
        intruder_expr = "bans_src.\"intruder\"",
        admin_expr = "bans_src.\"admin\"",
        kind_expr = "bans_src.\"type\"",
        round_id_expr = "bans_src.\"round_id\"",
        server_expr = "bans_src.\"server\"",
        created_at_expr = "bans_src.\"created_at\"",
        duration_end_expr = "bans_src.\"duration_end\"",
        reason_expr = "bans_src.\"reason\"",
        id_col = "\"id\"",
        table_name = "\"bans\"",
        base_alias = "bans_src",
        joins_sql = "",
    );
    assert_eq!(q, expected);
}

#[test]
fn ban_query_with_relations_and_errors() {
    let mut s = default_source();
    s.admin_col = "admin_id->users.id::name".to_owned();
    s.server_col = "server_id->servers.id::title".to_owned();
    let q = ban_record_query(&s).unwrap();
    assert!(q.contains("COALESCE(rel_0.\"name\"::text, '') AS admin"));
    assert!(q.contains("COALESCE(rel_1.\"title\"::text, '') AS server"));
    assert!(q.contains(
        "LEFT JOIN \"users\" AS rel_0 ON bans_src.\"admin_id\" = rel_0.\"id\"\n         LEFT JOIN \"servers\" AS rel_1 ON bans_src.\"server_id\" = rel_1.\"id\""
    ));
    s.reason_col = "x->y".to_owned();
    assert_eq!(
        ban_record_query(&s),
        Err(InvalidSetting { field: "BANS_COL_REASON".to_owned(), value: "x->y".to_owned() })
    );
}

#[test]
fn trigger_sql() {
    assert_eq!(trigger_name("public.ban_records"), "public_ban_records_notify_events_trigger");
    let f = notify_function_sql(&quote_identifier("ban_id"));
    assert!(f.starts_with("CREATE OR REPLACE FUNCTION notify_ban_events()"));
    assert!(f.contains("VALUES (NEW.\"ban_id\", event_name)"));
    assert!(f.contains("PERFORM pg_notify('ban_edited', NEW.\"ban_id\"::text);"));
    let t = notify_trigger_sql("bans_notify_events_trigger", "\"bans\"");
    assert!(t.contains("WHERE tgname = 'bans_notify_events_trigger'"));
    assert!(t.contains("AFTER INSERT OR UPDATE ON \"bans\"\n"));
}
