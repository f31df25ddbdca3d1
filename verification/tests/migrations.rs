use chat_backend::migrations::{
    apply_migrations, max_version, migration_list, Migration, MigrationError, MigrationKind,
    SchemaState,
};

#[test]
fn list_declares_five_ascending_up_migrations() {
    let list = migration_list();
    assert_eq!(list.len(), 5);
    for (i, m) in list.iter().enumerate() {
        assert_eq!(m.version, i as u64 + 1);
        assert_eq!(m.kind, MigrationKind::Up);
        assert!(!m.sql.is_empty());
    }
    assert_eq!(list[0].description, "create conversations table");
    assert_eq!(list[1].description, "create messages table");
    assert_eq!(list[2].description, "create settings table");
    assert_eq!(list[3].description, "create model_configs table");
    assert_eq!(list[4].description, "create plan and step tracking tables");
    assert_eq!(max_version(&list), 5);
}

#[test]
fn applying_full_list_creates_all_six_tables() {
    let list = migration_list();
    let mut state = SchemaState::empty();
    assert_eq!(apply_migrations(&mut state, &list), Ok(()));
    assert_eq!(state.version, 5);
    assert_eq!(state.tables.count(), 6);
    assert!(state.tables.conversations);
    assert!(state.tables.messages);
    assert!(state.tables.settings);
    assert!(state.tables.model_configs);
    assert!(state.tables.plan_status);
    assert!(state.tables.step_status);
}

#[test]
fn applying_list_twice_is_idempotent() {
    let list = migration_list();
    let mut state = SchemaState::empty();
    assert_eq!(apply_migrations(&mut state, &list), Ok(()));
    let after_first = state;
    assert_eq!(apply_migrations(&mut state, &list), Ok(()));
    assert_eq!(state, after_first);
    assert_eq!(state.tables.count(), 6);
}

#[test]
fn only_migrations_newer_than_recorded_version_apply() {
    let list = migration_list();
    let mut state = SchemaState::empty();
    state.version = 3;
    assert_eq!(apply_migrations(&mut state, &list), Ok(()));
    assert_eq!(state.version, 5);
    assert!(!state.tables.conversations);
    assert!(!state.tables.messages);
    assert!(!state.tables.settings);
    assert!(state.tables.model_configs);
    assert!(state.tables.plan_status);
    assert!(state.tables.step_status);
}

#[test]
fn future_recorded_version_is_rejected_unchanged() {
    let list = migration_list();
    let mut state = SchemaState::empty();
    state.version = 7;
    let before = state;
    assert_eq!(
        apply_migrations(&mut state, &list),
        Err(MigrationError::FutureVersion { recorded: 7, newest_known: 5 })
    );
    assert_eq!(state, before);
}

#[test]
fn empty_list_rejects_any_recorded_version() {
    let list: Vec<Migration> = Vec::new();
    let mut state = SchemaState::empty();
    state.version = 1;
    assert_eq!(
        apply_migrations(&mut state, &list),
        Err(MigrationError::FutureVersion { recorded: 1, newest_known: 0 })
    );
}

#[test]
fn declared_sql_carries_the_schema_constraints() {
    let list = migration_list();
    assert!(list[0].sql.starts_with("CREATE TABLE IF NOT EXISTS conversations"));
    assert!(list[1].sql.starts_with("CREATE TABLE IF NOT EXISTS messages"));
    assert!(list[1]
        .sql
        .contains("FOREIGN KEY (conversation_id) REFERENCES conversations (id) ON DELETE CASCADE"));
    assert!(list[2].sql.starts_with("CREATE TABLE IF NOT EXISTS settings"));
    assert!(list[2].sql.contains("key TEXT NOT NULL UNIQUE"));
    assert!(list[3].sql.starts_with("CREATE TABLE IF NOT EXISTS model_configs"));
    assert!(list[4].sql.contains("CREATE TABLE IF NOT EXISTS plan_status"));
    assert!(list[4].sql.contains("CREATE TABLE IF NOT EXISTS step_status"));
    assert!(list[4]
        .sql
        .contains("FOREIGN KEY (conversation_id) REFERENCES conversations(id) ON DELETE CASCADE"));
    assert!(list[4]
        .sql
        .contains("FOREIGN KEY (plan_id) REFERENCES plan_status(id) ON DELETE CASCADE"));
    assert!(list[4].sql.contains("UNIQUE(message_id)"));
    assert!(list[4].sql.contains("UNIQUE(step_id)"));
}
