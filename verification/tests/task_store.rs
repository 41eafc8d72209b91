use chrono::{DateTime, Datelike, Local, TimeZone, Timelike, Utc};
use jade_core::events::{
    latest_event_seq, list_task_events, list_task_events_since, ListTaskEventsInput,
    ListTaskEventsSinceInput,
};
use jade_core::models::{Error, TaskEventType, TaskStatus, EVENT_ORIGIN_LOCAL};
use jade_core::store::{EventPayload, FieldValue, Task, TaskField, TaskStore};
use jade_core::sync::{apply_remote_task_events, apply_remote_task_events_at, PayloadTask, SyncEventEnvelope};
use jade_core::tags::{count_tasks_with_tag, delete_tag, ensure_tag, list_tags};
use jade_core::tasks::{
    create_task, delete_task, list_tasks, reschedule_task, update_task, update_task_status,
    CreateTaskInput, DueUpdate, RepeatCronUpdate, RescheduleMode, UpdateTaskInput,
    UpdateTaskStatusInput,
};

fn nanos(dt: DateTime<Utc>) -> i64 {
    dt.timestamp_nanos_opt().unwrap()
}

fn utc(y: i32, mo: u32, d: u32, h: u32, mi: u32, s: u32) -> i64 {
    nanos(Utc.with_ymd_and_hms(y, mo, d, h, mi, s).unwrap())
}

fn to_utc(t: i64) -> DateTime<Utc> {
    DateTime::from_timestamp_nanos(t)
}

fn sample_input(title: &str, due: i64, tags: &[&str]) -> CreateTaskInput {
    CreateTaskInput {
        title: title.to_owned(),
        description: None,
        due_at: due,
        tag_names: tags.iter().map(|s| (*s).to_owned()).collect(),
        repeat_cron: None,
    }
}

fn recurring_input(title: &str, due: i64, cron: &str, tags: &[&str]) -> CreateTaskInput {
    CreateTaskInput {
        title: title.to_owned(),
        description: Some("recurring desc".into()),
        due_at: due,
        tag_names: tags.iter().map(|s| (*s).to_owned()).collect(),
        repeat_cron: Some(cron.to_owned()),
    }
}

fn no_update(id: u128) -> UpdateTaskInput {
    UpdateTaskInput {
        id,
        title: None,
        description: None,
        status: None,
        due: None,
        tag_names: None,
        repeat_cron: None,
    }
}

fn events_for(store: &TaskStore, id: u128, limit: Option<u32>) -> Vec<jade_core::store::TaskEvent> {
    list_task_events(store, &ListTaskEventsInput { task_id: Some(id), limit })
        .into_iter()
        .cloned()
        .collect()
}

fn tag_names(t: &Task) -> Vec<String> {
    t.tags.iter().map(|x| x.name.clone()).collect()
}

fn text(v: &FieldValue) -> Option<String> {
    match v {
        FieldValue::Text(s) => Some(s.clone()),
        _ => None,
    }
}

#[test]
fn create_lands_in_inactive_and_lists_by_due() {
    let mut store = TaskStore::new();
    let early = utc(2026, 7, 21, 10, 0, 0);
    let late = utc(2026, 7, 22, 10, 0, 0);

    let later = create_task(&mut store, &sample_input("Later", late, &["work"])).unwrap();
    let sooner = create_task(&mut store, &sample_input("Sooner", early, &[])).unwrap();

    assert_eq!(later.status, TaskStatus::Inactive);
    assert_eq!(sooner.status, TaskStatus::Inactive);
    assert!(later.repeat_cron.is_none());

    let tasks = list_tasks(&store);
    assert_eq!(tasks.len(), 2);
    assert_eq!(tasks[0].title, "Sooner");
    assert_eq!(tasks[1].title, "Later");
    assert_eq!(tasks[1].tags.len(), 1);
    assert_eq!(tasks[1].tags[0].name, "work");
}

#[test]
fn status_transition_and_reschedule() {
    let mut store = TaskStore::new();
    let due = utc(2026, 7, 20, 15, 0, 0);
    let task = create_task(&mut store, &sample_input("Move me", due, &[])).unwrap();

    let active = update_task_status(
        &mut store,
        &UpdateTaskStatusInput { id: task.id, status: TaskStatus::Active },
    )
    .unwrap();
    assert_eq!(active.task.status, TaskStatus::Active);
    assert!(active.spawned.is_none());

    let tomorrow = reschedule_task(&mut store, task.id, RescheduleMode::Tomorrow, None).unwrap();
    assert!(tomorrow.due_at > due);

    let monday = reschedule_task(&mut store, task.id, RescheduleMode::NextMonday, None).unwrap();
    assert_eq!(
        to_utc(monday.due_at).with_timezone(&Local).weekday(),
        chrono::Weekday::Mon
    );

    let custom = Utc.with_ymd_and_hms(2026, 8, 1, 12, 0, 0).unwrap();
    let customed =
        reschedule_task(&mut store, task.id, RescheduleMode::Custom, Some(nanos(custom))).unwrap();
    assert_eq!(to_utc(customed.due_at).hour(), custom.hour());
    assert_eq!(to_utc(customed.due_at).date_naive(), custom.date_naive());
}

#[test]
fn empty_title_rejected() {
    let mut store = TaskStore::new();
    let due = utc(2026, 7, 20, 15, 0, 0);
    let err = create_task(&mut store, &sample_input("   ", due, &[])).unwrap_err();
    assert!(matches!(err, Error::EmptyTitle));
}

#[test]
fn invalid_cron_rejected_on_create() {
    let mut store = TaskStore::new();
    let due = utc(2026, 7, 20, 15, 0, 0);
    let err = create_task(
        &mut store,
        &CreateTaskInput {
            title: "Bad cron".into(),
            description: None,
            due_at: due,
            tag_names: vec![],
            repeat_cron: Some("not-a-cron".into()),
        },
    )
    .unwrap_err();
    assert!(matches!(err, Error::InvalidCron(_)));
}

#[test]
fn soft_delete_hides_from_list() {
    let mut store = TaskStore::new();
    let due = utc(2026, 7, 20, 15, 0, 0);
    let task = create_task(&mut store, &sample_input("Gone", due, &[])).unwrap();
    delete_task(&mut store, task.id).unwrap();
    assert!(list_tasks(&store).is_empty());
    let err = delete_task(&mut store, task.id).unwrap_err();
    assert!(matches!(err, Error::TaskNotFound(_)));
}

#[test]
fn partial_update_multiple_fields() {
    let mut store = TaskStore::new();
    let due = utc(2026, 7, 20, 15, 0, 0);
    let task = create_task(
        &mut store,
        &CreateTaskInput {
            title: "Old".into(),
            description: Some("desc".into()),
            due_at: due,
            tag_names: vec![],
            repeat_cron: None,
        },
    )
    .unwrap();

    let custom = utc(2026, 8, 1, 12, 0, 0);
    let updated = update_task(
        &mut store,
        &UpdateTaskInput {
            id: task.id,
            title: Some("New".into()),
            description: Some(String::new()),
            status: Some(TaskStatus::Active),
            due: Some(DueUpdate::At(custom)),
            tag_names: None,
            repeat_cron: Some(RepeatCronUpdate::Replace("0 9 * * *".into())),
        },
    )
    .unwrap();

    assert_eq!(updated.task.title, "New");
    assert_eq!(updated.task.description, None);
    assert_eq!(updated.task.status, TaskStatus::Active);
    assert_eq!(updated.task.due_at, custom);
    assert_eq!(updated.task.repeat_cron.as_deref(), Some("0 9 * * *"));
    assert!(updated.spawned.is_none());
}

#[test]
fn partial_update_replaces_tags() {
    let mut store = TaskStore::new();
    let due = utc(2026, 7, 20, 15, 0, 0);
    let task = create_task(&mut store, &sample_input("Tagged", due, &["old", "keep"])).unwrap();

    let mut input = no_update(task.id);
    input.tag_names = Some(vec!["keep".into(), "new".into()]);
    let updated = update_task(&mut store, &input).unwrap();

    let names: Vec<_> = updated.task.tags.iter().map(|t| t.name.as_str()).collect();
    assert_eq!(names, vec!["keep", "new"]);
}

#[test]
fn partial_update_requires_fields() {
    let mut store = TaskStore::new();
    let due = utc(2026, 7, 20, 15, 0, 0);
    let task = create_task(&mut store, &sample_input("Keep", due, &[])).unwrap();
    let err = update_task(&mut store, &no_update(task.id)).unwrap_err();
    assert!(matches!(err, Error::NoUpdateFields));
}

#[test]
fn partial_update_missing_task() {
    let mut store = TaskStore::new();
    let mut input = no_update(uuid::Uuid::new_v4().as_u128());
    input.title = Some("Nope".into());
    let err = update_task(&mut store, &input).unwrap_err();
    assert!(matches!(err, Error::TaskNotFound(_)));
}

#[test]
fn complete_recurring_spawns_next_and_clears_cron() {
    let mut store = TaskStore::new();
    // Due in the past so max(due_at, now) == now; next daily at 9am local.
    let due = nanos(Utc::now() - chrono::Duration::days(3));
    let task = create_task(
        &mut store,
        &recurring_input("Daily chore", due, "0 9 * * *", &["home", "chore"]),
    )
    .unwrap();
    assert_eq!(task.repeat_cron.as_deref(), Some("0 9 * * *"));

    let result = update_task_status(
        &mut store,
        &UpdateTaskStatusInput { id: task.id, status: TaskStatus::Complete },
    )
    .unwrap();

    assert_eq!(result.task.status, TaskStatus::Complete);
    assert!(result.task.repeat_cron.is_none(), "history must clear cron");

    let spawned = result.spawned.expect("should spawn next occurrence");
    assert_eq!(spawned.title, "Daily chore");
    assert_eq!(spawned.description.as_deref(), Some("recurring desc"));
    assert_eq!(spawned.status, TaskStatus::Inactive);
    assert_eq!(spawned.repeat_cron.as_deref(), Some("0 9 * * *"));
    assert!(spawned.due_at > nanos(Utc::now() - chrono::Duration::minutes(1)));
    let names: Vec<_> = spawned.tags.iter().map(|t| t.name.as_str()).collect();
    assert_eq!(names, vec!["chore", "home"]);

    // Completing history again must not spawn another copy.
    let again = update_task_status(
        &mut store,
        &UpdateTaskStatusInput { id: task.id, status: TaskStatus::Complete },
    )
    .unwrap();
    assert!(again.spawned.is_none());

    let tasks = list_tasks(&store);
    assert_eq!(tasks.len(), 2);
}

#[test]
fn complete_non_recurring_does_not_spawn() {
    let mut store = TaskStore::new();
    let due = utc(2026, 7, 20, 15, 0, 0);
    let task = create_task(&mut store, &sample_input("Once", due, &[])).unwrap();
    let result = update_task_status(
        &mut store,
        &UpdateTaskStatusInput { id: task.id, status: TaskStatus::Complete },
    )
    .unwrap();
    assert!(result.spawned.is_none());
    assert_eq!(list_tasks(&store).len(), 1);
}

#[test]
fn update_task_complete_also_spawns() {
    let mut store = TaskStore::new();
    let due = nanos(Utc::now() - chrono::Duration::hours(1));
    let task =
        create_task(&mut store, &recurring_input("Via update", due, "0 9 * * 1-5", &[])).unwrap();

    let mut input = no_update(task.id);
    input.status = Some(TaskStatus::Complete);
    let result = update_task(&mut store, &input).unwrap();

    assert!(result.task.repeat_cron.is_none());
    let spawned = result.spawned.expect("spawn via update_task");
    assert_eq!(spawned.repeat_cron.as_deref(), Some("0 9 * * 1-5"));
}

#[test]
fn create_writes_created_event() {
    let mut store = TaskStore::new();
    let due = utc(2026, 7, 20, 15, 0, 0);
    let task = create_task(&mut store, &sample_input("Logged", due, &["work"])).unwrap();

    let events = events_for(&store, task.id, None);
    assert_eq!(events.len(), 1);
    assert_eq!(events[0].event_type, TaskEventType::Created);
    assert_eq!(events[0].seq, 1);
    assert_eq!(events[0].origin, EVENT_ORIGIN_LOCAL);
    match &events[0].payload {
        EventPayload::Created { task: snap, spawned_from } => {
            assert_eq!(snap.title, "Logged");
            assert_eq!(snap.status.as_str(), "inactive");
            assert_eq!(tag_names(snap), vec!["work".to_owned()]);
            assert!(spawned_from.is_none());
            assert_eq!(snap.id, task.id);
        }
        other => panic!("unexpected payload {other:?}"),
    }
}

#[test]
fn status_change_writes_updated_event() {
    let mut store = TaskStore::new();
    let due = utc(2026, 7, 20, 15, 0, 0);
    let task = create_task(&mut store, &sample_input("Move", due, &[])).unwrap();

    update_task_status(
        &mut store,
        &UpdateTaskStatusInput { id: task.id, status: TaskStatus::Active },
    )
    .unwrap();

    let events = events_for(&store, task.id, None);
    assert_eq!(events.len(), 2);
    assert_eq!(events[0].event_type, TaskEventType::Updated);
    match &events[0].payload {
        EventPayload::Updated { changes, task: snap } => {
            let status = changes.iter().find(|c| c.field == TaskField::Status).unwrap();
            assert_eq!(text(&status.old).as_deref(), Some("inactive"));
            assert_eq!(text(&status.new).as_deref(), Some("active"));
            assert_eq!(snap.status, TaskStatus::Active);
        }
        other => panic!("unexpected payload {other:?}"),
    }
}

#[test]
fn noop_status_writes_nothing() {
    let mut store = TaskStore::new();
    let due = utc(2026, 7, 20, 15, 0, 0);
    let task = create_task(&mut store, &sample_input("Stay", due, &[])).unwrap();

    update_task_status(
        &mut store,
        &UpdateTaskStatusInput { id: task.id, status: TaskStatus::Inactive },
    )
    .unwrap();

    let events = events_for(&store, task.id, None);
    assert_eq!(events.len(), 1);
    assert_eq!(events[0].event_type, TaskEventType::Created);
}

#[test]
fn multi_field_update_single_event() {
    let mut store = TaskStore::new();
    let due = utc(2026, 7, 20, 15, 0, 0);
    let task = create_task(
        &mut store,
        &CreateTaskInput {
            title: "Old".into(),
            description: Some("desc".into()),
            due_at: due,
            tag_names: vec![],
            repeat_cron: None,
        },
    )
    .unwrap();

    let custom = utc(2026, 8, 1, 12, 0, 0);
    update_task(
        &mut store,
        &UpdateTaskInput {
            id: task.id,
            title: Some("New".into()),
            description: Some(String::new()),
            status: Some(TaskStatus::Active),
            due: Some(DueUpdate::At(custom)),
            tag_names: None,
            repeat_cron: Some(RepeatCronUpdate::Replace("0 9 * * *".into())),
        },
    )
    .unwrap();

    let events = events_for(&store, task.id, Some(1));
    assert_eq!(events.len(), 1);
    assert_eq!(events[0].event_type, TaskEventType::Updated);
    match &events[0].payload {
        EventPayload::Updated { changes, task: snap } => {
            let get = |f: TaskField| changes.iter().find(|c| c.field == f).unwrap();
            assert_eq!(text(&get(TaskField::Title).old).as_deref(), Some("Old"));
            assert_eq!(text(&get(TaskField::Title).new).as_deref(), Some("New"));
            assert_eq!(text(&get(TaskField::Description).old).as_deref(), Some("desc"));
            assert!(matches!(get(TaskField::Description).new, FieldValue::Null));
            assert_eq!(text(&get(TaskField::Status).old).as_deref(), Some("inactive"));
            assert_eq!(text(&get(TaskField::Status).new).as_deref(), Some("active"));
            assert!(matches!(get(TaskField::DueAt).new, FieldValue::Time(t) if t == custom));
            assert!(matches!(get(TaskField::RepeatCron).old, FieldValue::Null));
            assert_eq!(text(&get(TaskField::RepeatCron).new).as_deref(), Some("0 9 * * *"));
            assert!(changes.iter().all(|c| c.field != TaskField::Tags));
            assert_eq!(snap.title, "New");
        }
        other => panic!("unexpected payload {other:?}"),
    }
}

#[test]
fn delete_writes_deleted_event() {
    let mut store = TaskStore::new();
    let due = utc(2026, 7, 20, 15, 0, 0);
    let task = create_task(&mut store, &sample_input("Gone", due, &[])).unwrap();
    delete_task(&mut store, task.id).unwrap();

    let events = events_for(&store, task.id, None);
    assert_eq!(events[0].event_type, TaskEventType::Deleted);
    match &events[0].payload {
        EventPayload::Deleted { task: snap } => {
            assert_eq!(snap.id, task.id);
            assert_eq!(snap.title, "Gone");
        }
        other => panic!("unexpected payload {other:?}"),
    }
}

#[test]
fn recurring_complete_logs_update_and_spawn_create() {
    let mut store = TaskStore::new();
    let due = nanos(Utc::now() - chrono::Duration::days(3));
    let task = create_task(
        &mut store,
        &CreateTaskInput {
            title: "Daily".into(),
            description: None,
            due_at: due,
            tag_names: vec!["chore".into()],
            repeat_cron: Some("0 9 * * *".into()),
        },
    )
    .unwrap();

    let result = update_task_status(
        &mut store,
        &UpdateTaskStatusInput { id: task.id, status: TaskStatus::Complete },
    )
    .unwrap();
    let spawned = result.spawned.expect("spawned");

    let completed_events = events_for(&store, task.id, Some(1));
    assert_eq!(completed_events[0].event_type, TaskEventType::Updated);
    match &completed_events[0].payload {
        EventPayload::Updated { changes, .. } => {
            let status = changes.iter().find(|c| c.field == TaskField::Status).unwrap();
            assert_eq!(text(&status.new).as_deref(), Some("complete"));
            let cron = changes.iter().find(|c| c.field == TaskField::RepeatCron).unwrap();
            assert_eq!(text(&cron.old).as_deref(), Some("0 9 * * *"));
            assert!(matches!(cron.new, FieldValue::Null));
        }
        other => panic!("unexpected payload {other:?}"),
    }

    let spawn_events = events_for(&store, spawned.id, None);
    assert_eq!(spawn_events.len(), 1);
    assert_eq!(spawn_events[0].event_type, TaskEventType::Created);
    match &spawn_events[0].payload {
        EventPayload::Created { task: snap, spawned_from } => {
            assert_eq!(*spawned_from, Some(task.id));
            assert_eq!(tag_names(snap), vec!["chore".to_owned()]);
            assert_eq!(snap.id, spawned.id);
        }
        other => panic!("unexpected payload {other:?}"),
    }
}

#[test]
fn list_since_and_latest_seq() {
    let mut store = TaskStore::new();
    assert_eq!(latest_event_seq(&store), 0);

    let due = utc(2026, 7, 20, 15, 0, 0);
    let a = create_task(&mut store, &sample_input("A", due, &[])).unwrap();
    let b = create_task(&mut store, &sample_input("B", due, &[])).unwrap();
    assert_eq!(latest_event_seq(&store), 2);

    let since = list_task_events_since(&store, &ListTaskEventsSinceInput { after_seq: 0, limit: None });
    assert_eq!(since.len(), 2);
    assert_eq!(since[0].task_id, a.id);
    assert_eq!(since[1].task_id, b.id);

    let after_one =
        list_task_events_since(&store, &ListTaskEventsSinceInput { after_seq: 1, limit: None });
    assert_eq!(after_one.len(), 1);
    assert_eq!(after_one[0].task_id, b.id);
}

#[test]
fn ensure_tag_is_case_insensitive() {
    let mut store = TaskStore::new();
    let a = ensure_tag(&mut store, "Work").unwrap();
    let b = ensure_tag(&mut store, "work").unwrap();
    assert_eq!(a.id, b.id);
    assert_eq!(list_tags(&store).len(), 1);
}

#[test]
fn count_and_delete_tag() {
    let mut store = TaskStore::new();
    let due = utc(2026, 7, 20, 15, 0, 0);
    let first = create_task(&mut store, &sample_input("One", due, &["shared"])).unwrap();
    create_task(&mut store, &sample_input("Two", due, &["shared"])).unwrap();

    let tag_id = first.tags[0].id;
    assert_eq!(count_tasks_with_tag(&store, tag_id), 2);

    delete_task(&mut store, first.id).unwrap();
    assert_eq!(count_tasks_with_tag(&store, tag_id), 1);

    delete_tag(&mut store, tag_id).unwrap();
    assert!(list_tags(&store).is_empty());
    assert_eq!(count_tasks_with_tag(&store, tag_id), 0);
}

fn envelope_from_first_event(store: &TaskStore) -> SyncEventEnvelope {
    let ev = &store.events[0];
    let task = match &ev.payload {
        EventPayload::Created { task, .. } => task.clone(),
        EventPayload::Updated { task, .. } => task.clone(),
        EventPayload::Deleted { task } => task.clone(),
        EventPayload::Received { .. } => panic!("local event expected"),
    };
    SyncEventEnvelope {
        id: ev.id,
        task_id: ev.task_id,
        event_type: ev.event_type,
        payload: "{}".into(),
        task: PayloadTask::Valid(task),
        origin: ev.origin.clone(),
        created_at: ev.created_at,
        seq: ev.seq,
    }
}

#[test]
fn dual_db_apply_idempotent_and_lww() {
    let mut a = TaskStore::new();
    let mut b = TaskStore::new();

    let due = utc(2026, 7, 20, 15, 0, 0);
    let task = create_task(
        &mut a,
        &CreateTaskInput {
            title: "From A".into(),
            description: None,
            due_at: due,
            tag_names: vec!["work".into()],
            repeat_cron: None,
        },
    )
    .unwrap();

    let ev = envelope_from_first_event(&a);
    let stats = apply_remote_task_events(&mut b, &vec![ev.clone()]).unwrap();
    assert_eq!(stats.accepted, 1);
    assert_eq!(stats.skipped, 0);

    let listed = list_tasks(&b);
    assert_eq!(listed.len(), 1);
    assert_eq!(listed[0].id, task.id);
    assert_eq!(listed[0].title, "From A");
    assert_eq!(listed[0].tags.len(), 1);

    let again = apply_remote_task_events(&mut b, &vec![ev]).unwrap();
    assert_eq!(again.accepted, 0);
    assert_eq!(again.skipped, 1);

    // Newer event wins LWW
    let mut newer = envelope_from_first_event(&a);
    newer.id = uuid::Uuid::new_v4().as_u128();
    newer.created_at = nanos(Utc::now() + chrono::Duration::seconds(10));
    newer.event_type = TaskEventType::Updated;
    if let PayloadTask::Valid(t) = &mut newer.task {
        t.title = "Renamed".into();
        t.status = TaskStatus::Active;
    }

    apply_remote_task_events(&mut b, &vec![newer]).unwrap();
    let listed = list_tasks(&b);
    assert_eq!(listed[0].title, "Renamed");
    assert_eq!(listed[0].status, TaskStatus::Active);
}

#[test]
fn received_event_without_usable_task_is_refused() {
    let mut a = TaskStore::new();
    create_task(&mut a, &sample_input("Source", utc(2026, 7, 20, 15, 0, 0), &[])).unwrap();
    let mut b = TaskStore::new();

    let mut missing = envelope_from_first_event(&a);
    missing.task = PayloadTask::Missing;
    assert_eq!(
        apply_remote_task_events(&mut b, &vec![missing]).unwrap_err(),
        Error::Message("sync event missing payload.task".into())
    );

    let mut invalid = envelope_from_first_event(&a);
    invalid.task = PayloadTask::Invalid("missing field `title`".into());
    assert_eq!(
        apply_remote_task_events(&mut b, &vec![invalid]).unwrap_err(),
        Error::Message("invalid payload.task: missing field `title`".into())
    );

    let mut other = envelope_from_first_event(&a);
    other.task_id = other.task_id.wrapping_add(1);
    assert_eq!(
        apply_remote_task_events(&mut b, &vec![other]).unwrap_err(),
        Error::Message("payload.task.id does not match event task_id".into())
    );
    assert!(list_tasks(&b).is_empty());
}

#[test]
fn local_writes_carry_the_device_id() {
    let mut store = TaskStore::new();
    store.device_id = Some("device-1".into());
    let t = create_task(&mut store, &sample_input("A", utc(2026, 7, 20, 15, 0, 0), &[])).unwrap();
    assert_eq!(store.events.last().unwrap().origin, "device-1");
    update_task_status(&mut store, &UpdateTaskStatusInput { id: t.id, status: TaskStatus::Active }).unwrap();
    assert_eq!(store.events.last().unwrap().origin, "device-1");
    delete_task(&mut store, t.id).unwrap();
    assert_eq!(store.events.last().unwrap().origin, "device-1");
}

#[test]
fn due_presets_count_from_the_current_due_date() {
    let mut store = TaskStore::new();
    let due = utc(2030, 1, 2, 15, 30, 0);
    let t = create_task(&mut store, &sample_input("Later", due, &[])).unwrap();
    let mut input = no_update(t.id);
    input.due = Some(DueUpdate::Tomorrow);
    let moved = update_task(&mut store, &input).unwrap();
    let before = to_utc(due).with_timezone(&Local);
    let after = to_utc(moved.task.due_at).with_timezone(&Local);
    assert_eq!(after.date_naive(), before.date_naive().succ_opt().unwrap());
    assert_eq!(after.time(), before.time());

    let mut input = no_update(t.id);
    input.due = Some(DueUpdate::NextMonday);
    let monday = update_task(&mut store, &input).unwrap();
    let on = to_utc(monday.task.due_at).with_timezone(&Local);
    assert_eq!(on.weekday(), chrono::Weekday::Mon);
    let gap = (on.date_naive() - after.date_naive()).num_days();
    assert!((1..=7).contains(&gap));
    assert_eq!(on.time(), after.time());
}

#[test]
fn batch_counts_each_new_event_once() {
    let mut a = TaskStore::new();
    create_task(&mut a, &sample_input("X", utc(2026, 7, 20, 15, 0, 0), &[])).unwrap();
    let ev = envelope_from_first_event(&a);
    let mut b = TaskStore::new();
    let stats = apply_remote_task_events(&mut b, &vec![ev.clone(), ev.clone()]).unwrap();
    assert_eq!(stats.accepted, 1);
    assert_eq!(stats.skipped, 1);
    assert_eq!(b.events.len(), 1);
}

#[test]
fn second_delete_is_not_found() {
    let mut store = TaskStore::new();
    let t = create_task(&mut store, &sample_input("Gone", utc(2026, 7, 20, 15, 0, 0), &[])).unwrap();
    delete_task(&mut store, t.id).unwrap();
    assert!(matches!(delete_task(&mut store, t.id), Err(Error::TaskNotFound(_))));
}

#[test]
fn spawned_occurrence_is_searched_after_now_for_overdue_tasks() {
    let mut store = TaskStore::new();
    let due = nanos(Utc::now() - chrono::Duration::days(3));
    let t = create_task(&mut store, &recurring_input("Daily", due, "0 9 * * *", &[])).unwrap();
    let r = update_task_status(&mut store, &UpdateTaskStatusInput { id: t.id, status: TaskStatus::Complete }).unwrap();
    let spawned = r.spawned.expect("next occurrence");
    assert!(spawned.due_at > nanos(Utc::now() - chrono::Duration::seconds(5)));
    let local = to_utc(spawned.due_at).with_timezone(&Local);
    assert_eq!((local.hour(), local.minute()), (9, 0));
}

#[test]
fn batch_at_a_given_time_takes_new_events_in() {
    let mut a = TaskStore::new();
    create_task(&mut a, &sample_input("Y", utc(2026, 7, 20, 15, 0, 0), &["home"])).unwrap();
    let ev = envelope_from_first_event(&a);
    let mut b = TaskStore::new();
    let fallback = vec![vec![42u128]];
    let stats = apply_remote_task_events_at(&mut b, &vec![ev.clone()], 1_000, &fallback).unwrap();
    assert_eq!((stats.accepted, stats.skipped), (1, 0));
    assert_eq!(b.events[0].id, ev.id);
    assert_eq!(b.events[0].origin, ev.origin);
    assert_eq!(list_tasks(&b)[0].tags.len(), 1);

    let mut broken = ev.clone();
    broken.id = 7;
    broken.task_id = 8;
    broken.task = PayloadTask::Missing;
    let mut c = TaskStore::new();
    assert!(apply_remote_task_events_at(&mut c, &vec![broken], 1_000, &vec![vec![]]).is_err());
}
