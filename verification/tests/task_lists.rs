use chat_core::tasks::User;

fn sample_user() -> User {
    let mut user = User::new("ann".to_string(), "secret".to_string());
    user.add_task("write report".to_string());
    user.add_task("review patch".to_string());
    user.add_task("file expenses".to_string());
    user
}

#[test]
fn new_user_is_empty() {
    let user = User::new("ann".to_string(), "secret".to_string());
    assert_eq!(user.username, "ann");
    assert_eq!(user.password, "secret");
    assert!(user.tasks.is_empty());
}

#[test]
fn authenticate_checks_password() {
    let user = User::new("ann".to_string(), "secret".to_string());
    assert!(user.authenticate("secret"));
    assert!(!user.authenticate("wrong"));
    assert!(!user.authenticate(""));
}

#[test]
fn add_task_numbers_densely() {
    let user = sample_user();
    assert_eq!(user.tasks.len(), 3);
    for (i, task) in user.tasks.iter().enumerate() {
        assert_eq!(task.id, i as u32 + 1);
        assert!(!task.completed);
    }
    assert_eq!(user.tasks[0].description, "write report");
    assert_eq!(user.tasks[2].description, "file expenses");
}

#[test]
fn edit_task_changes_only_the_match() {
    let mut user = sample_user();
    user.edit_task(2, "review the big patch".to_string());
    assert_eq!(user.tasks[0].description, "write report");
    assert_eq!(user.tasks[1].description, "review the big patch");
    assert_eq!(user.tasks[1].id, 2);
    assert_eq!(user.tasks[2].description, "file expenses");
}

#[test]
fn edit_unknown_task_is_noop() {
    let mut user = sample_user();
    user.edit_task(9, "never lands".to_string());
    assert_eq!(user.tasks.len(), 3);
    assert_eq!(user.tasks[0].description, "write report");
    assert_eq!(user.tasks[1].description, "review patch");
    assert_eq!(user.tasks[2].description, "file expenses");
}

#[test]
fn remove_task_renumbers() {
    let mut user = sample_user();
    user.remove_task(2);
    assert_eq!(user.tasks.len(), 2);
    assert_eq!(user.tasks[0].id, 1);
    assert_eq!(user.tasks[0].description, "write report");
    assert_eq!(user.tasks[1].id, 2);
    assert_eq!(user.tasks[1].description, "file expenses");
}

#[test]
fn remove_unknown_task_keeps_all() {
    let mut user = sample_user();
    user.remove_task(7);
    assert_eq!(user.tasks.len(), 3);
    for (i, task) in user.tasks.iter().enumerate() {
        assert_eq!(task.id, i as u32 + 1);
    }
}

#[test]
fn mark_task_completed_sets_flag() {
    let mut user = sample_user();
    user.mark_task_completed(3);
    assert!(!user.tasks[0].completed);
    assert!(!user.tasks[1].completed);
    assert!(user.tasks[2].completed);
    assert_eq!(user.tasks[2].description, "file expenses");
}

#[test]
fn mark_unknown_task_is_noop() {
    let mut user = sample_user();
    user.mark_task_completed(12);
    assert!(user.tasks.iter().all(|t| !t.completed));
}
