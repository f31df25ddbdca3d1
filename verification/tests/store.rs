use chat_backend::store::{Conversation, Db, Message, PlanStatus, Setting, StepStatus, StoreError};

fn conversation(id: &str) -> Conversation {
    Conversation {
        id: String::from(id),
        title: String::from("title"),
        created_at: 1,
        updated_at: 1,
    }
}

fn message(id: &str, conversation_id: &str) -> Message {
    Message {
        id: String::from(id),
        conversation_id: String::from(conversation_id),
        role: String::from("user"),
        content: String::from("hi"),
        timestamp: 2,
    }
}

fn plan(id: &str, message_id: &str, conversation_id: &str) -> PlanStatus {
    PlanStatus {
        id: String::from(id),
        message_id: String::from(message_id),
        conversation_id: String::from(conversation_id),
        plan_steps: String::from("[]"),
        status: String::from("pending"),
    }
}

fn step(id: &str, plan_id: &str, step_id: &str) -> StepStatus {
    StepStatus {
        id: String::from(id),
        plan_id: String::from(plan_id),
        step_id: String::from(step_id),
        step_number: 1,
        description: String::from("do it"),
        status: String::from("pending"),
    }
}

fn populated() -> Db {
    let mut db = Db::new();
    assert_eq!(db.insert_conversation(conversation("c1")), Ok(()));
    assert_eq!(db.insert_conversation(conversation("c2")), Ok(()));
    assert_eq!(db.insert_message(message("m1", "c1")), Ok(()));
    assert_eq!(db.insert_message(message("m2", "c1")), Ok(()));
    assert_eq!(db.insert_message(message("m3", "c2")), Ok(()));
    assert_eq!(db.insert_plan_status(plan("p1", "m1", "c1")), Ok(()));
    assert_eq!(db.insert_plan_status(plan("p2", "m3", "c2")), Ok(()));
    assert_eq!(db.insert_step_status(step("s1", "p1", "t1")), Ok(()));
    assert_eq!(db.insert_step_status(step("s2", "p1", "t2")), Ok(()));
    assert_eq!(db.insert_step_status(step("s3", "p2", "t3")), Ok(()));
    db
}

#[test]
fn deleting_a_conversation_cascades_to_messages_plans_and_steps() {
    let mut db = populated();
    db.delete_conversation(&String::from("c1"));
    assert_eq!(db.conversations.len(), 1);
    assert_eq!(db.conversations[0].id, "c2");
    assert_eq!(db.messages.len(), 1);
    assert_eq!(db.messages[0].id, "m3");
    assert_eq!(db.plans.len(), 1);
    assert_eq!(db.plans[0].id, "p2");
    assert_eq!(db.steps.len(), 1);
    assert_eq!(db.steps[0].id, "s3");
}

#[test]
fn deleting_a_plan_cascades_to_its_steps_only() {
    let mut db = populated();
    db.delete_plan_status(&String::from("p1"));
    assert_eq!(db.plans.len(), 1);
    assert_eq!(db.plans[0].id, "p2");
    assert_eq!(db.steps.len(), 1);
    assert_eq!(db.steps[0].id, "s3");
    assert_eq!(db.conversations.len(), 2);
    assert_eq!(db.messages.len(), 3);
}

#[test]
fn deleting_a_missing_conversation_changes_nothing() {
    let mut db = populated();
    db.delete_conversation(&String::from("missing"));
    assert_eq!(db.conversations.len(), 2);
    assert_eq!(db.messages.len(), 3);
    assert_eq!(db.plans.len(), 2);
    assert_eq!(db.steps.len(), 3);
}

#[test]
fn duplicate_keys_are_refused() {
    let mut db = populated();
    assert_eq!(db.insert_conversation(conversation("c1")), Err(StoreError::UniqueViolation));
    assert_eq!(db.insert_message(message("m1", "c2")), Err(StoreError::UniqueViolation));
    assert_eq!(db.insert_plan_status(plan("p1", "m9", "c1")), Err(StoreError::UniqueViolation));
    assert_eq!(db.insert_plan_status(plan("p9", "m1", "c1")), Err(StoreError::UniqueViolation));
    assert_eq!(db.insert_step_status(step("s1", "p2", "t9")), Err(StoreError::UniqueViolation));
    assert_eq!(db.insert_step_status(step("s9", "p2", "t1")), Err(StoreError::UniqueViolation));
    assert_eq!(db.conversations.len(), 2);
    assert_eq!(db.messages.len(), 3);
    assert_eq!(db.plans.len(), 2);
    assert_eq!(db.steps.len(), 3);
}

#[test]
fn dangling_references_are_refused() {
    let mut db = populated();
    assert_eq!(db.insert_message(message("m9", "c9")), Err(StoreError::ForeignKeyViolation));
    assert_eq!(db.insert_plan_status(plan("p9", "m9", "c9")), Err(StoreError::ForeignKeyViolation));
    assert_eq!(db.insert_step_status(step("s9", "p9", "t9")), Err(StoreError::ForeignKeyViolation));
}

#[test]
fn rows_of_other_parents_survive_a_cascade() {
    let mut db = populated();
    db.delete_plan_status(&String::from("p2"));
    assert_eq!(db.steps.len(), 2);
    assert_eq!(db.steps[0].id, "s1");
    assert_eq!(db.steps[1].id, "s2");
    db.delete_conversation(&String::from("c2"));
    assert_eq!(db.conversations.len(), 1);
    assert_eq!(db.messages.len(), 2);
    assert_eq!(db.plans.len(), 1);
    assert_eq!(db.steps.len(), 2);
}

fn setting(id: &str, key: &str, value: &str) -> Setting {
    Setting { id: String::from(id), key: String::from(key), value: Some(String::from(value)) }
}

#[test]
fn duplicate_setting_key_or_id_is_refused() {
    let mut db = Db::new();
    assert_eq!(db.insert_setting(setting("st1", "theme", "dark")), Ok(()));
    assert_eq!(
        db.insert_setting(setting("st2", "theme", "light")),
        Err(StoreError::UniqueViolation)
    );
    assert_eq!(
        db.insert_setting(setting("st1", "language", "en")),
        Err(StoreError::UniqueViolation)
    );
    assert_eq!(db.settings.len(), 1);
    assert_eq!(db.settings[0].value, Some(String::from("dark")));
    assert_eq!(db.insert_setting(setting("st2", "language", "en")), Ok(()));
    assert_eq!(db.settings.len(), 2);
}

#[test]
fn cascading_deletes_leave_settings_alone() {
    let mut db = populated();
    assert_eq!(db.insert_setting(setting("st1", "theme", "dark")), Ok(()));
    db.delete_conversation(&String::from("c1"));
    db.delete_plan_status(&String::from("p2"));
    assert_eq!(db.settings.len(), 1);
    assert_eq!(db.settings[0].key, "theme");
}
