use one_thing::config::{
    generate_legacy_path, generate_path, insert_entry, path_in, registry_from, Config, DirLookup,
};
use one_thing::date::{Date, LocalClock};
use one_thing::error::Error;
use one_thing::items::{DateInfo, Item};
use one_thing::projects::{get_first_project, hide_project, next_item, project_id, projects};
use one_thing::request::{
    check_response, close_body, close_command, project_data_body, IdempotencyKey,
};
use one_thing::session::{after_close, begin_complete, Completion};

fn today() -> LocalClock {
    LocalClock { today: Date { year: 2024, month: 3, day: 10 }, utc_offset: 0 }
}

fn config() -> Config {
    let mut c = Config {
        token: String::from("alreadycreated"),
        projects: Vec::new(),
        path: String::from("/tmp/tod.cfg"),
        next_id: None,
        timezone: Some(String::from("US/Pacific")),
        last_version_check: None,
    };
    c.add_project(String::from("home"), 42);
    c
}

fn task(id: &str, title: &str, priority: u8, due: &str) -> Item {
    Item {
        id: String::from(id),
        content: String::from(title),
        checked: false,
        description: String::new(),
        due: Some(DateInfo { date: String::from(due), is_recurring: false, timezone: None }),
        priority,
        is_deleted: false,
    }
}

fn home_tasks() -> Vec<Item> {
    vec![task("2", "Buy milk", 2, "2024-03-11"), task("1", "Pay rent", 4, "2024-03-10")]
}

#[test]
fn next_in_home_is_the_urgent_task() {
    let c = config();
    assert_eq!(project_id(&c, "home"), Ok(42));
    let (c, text) = next_item(c, home_tasks(), &today()).unwrap();
    assert_eq!(text, Some(String::from("Pay rent\nDue: 2024-03-10")));
    assert_eq!(c.next_id, Some(String::from("1")));
}

#[test]
fn no_eligible_task_leaves_pointer() {
    let c = config().set_next_id(String::from("77"));
    let tasks = vec![task("5", "Later", 4, "2024-04-01")];
    let (after, text) = next_item(c.clone(), tasks, &today()).unwrap();
    assert_eq!(text, None);
    assert_eq!(after, c);
    let (after, text) = next_item(c.clone(), vec![], &today()).unwrap();
    assert_eq!(text, None);
    assert_eq!(after.next_id, Some(String::from("77")));
}

#[test]
fn unknown_project_is_an_error() {
    let c = config();
    assert_eq!(project_id(&c, "office"), Err(Error::UnknownProject(String::from("office"))));
    assert_eq!(project_id(&c, "Home"), Err(Error::UnknownProject(String::from("Home"))));
}

#[test]
fn next_twice_gives_the_same_answer() {
    let (first, t1) = next_item(config(), home_tasks(), &today()).unwrap();
    let (second, t2) = next_item(first.clone(), home_tasks(), &today()).unwrap();
    assert_eq!(t1, t2);
    assert_eq!(first, second);
}

#[test]
fn next_needs_a_zone_for_dated_tasks() {
    let mut c = config();
    c.timezone = None;
    assert_eq!(next_item(c, home_tasks(), &today()), Err(Error::MissingTimezone));
}

#[test]
fn complete_without_pointer_selects() {
    assert!(matches!(begin_complete(&config()), Completion::Select));
}

#[test]
fn complete_clears_pointer_only_on_success() {
    let c = config().set_next_id(String::from("112233"));
    match begin_complete(&c) {
        Completion::Close(id) => assert_eq!(id, "112233"),
        Completion::Select => panic!("expected a close"),
    }
    let (failed, outcome) = after_close(c.clone(), Err(Error::Unreachable));
    assert_eq!(outcome, Err(Error::Unreachable));
    assert_eq!(failed, c);
    match begin_complete(&failed) {
        Completion::Close(id) => assert_eq!(id, "112233"),
        Completion::Select => panic!("expected a close"),
    }
    let (done, outcome) = after_close(failed, Ok(()));
    assert_eq!(outcome, Ok(()));
    assert_eq!(done.next_id, None);
    assert_eq!(done.token, "alreadycreated");
    assert!(matches!(begin_complete(&done), Completion::Select));
}

#[test]
fn registry_stays_sorted_and_replaces() {
    let mut c = config();
    c.add_project(String::from("work"), 7);
    c.add_project(String::from("errands"), 9);
    c.add_project(String::from("home"), 43);
    assert_eq!(projects(&c), vec!["errands", "home", "work"]);
    assert_eq!(project_id(&c, "home"), Ok(43));
    assert_eq!(project_id(&c, "errands"), Ok(9));
    assert_eq!(c.projects.len(), 3);
}

#[test]
fn first_project_and_hiding() {
    assert_eq!(get_first_project(vec![]), "No projects found");
    assert_eq!(get_first_project(vec![String::from("a"), String::from("b")]), "a");
    let names = vec![String::from("a"), String::from("b"), String::from("c")];
    let (rest, current) = hide_project(names, "a");
    assert_eq!(rest, vec!["b", "c"]);
    assert_eq!(current, "b");
    let (rest, current) = hide_project(vec![String::from("a")], "a");
    assert!(rest.is_empty());
    assert_eq!(current, "No projects found");
}

#[test]
fn config_setters() {
    let c = config().set_next_id(String::from("1")).set_path("/x/tod.cfg");
    assert_eq!(c.path, "/x/tod.cfg");
    assert_eq!(c.next_id, Some(String::from("1")));
    let c = c.clear_next_id().set_timezone(String::from("Europe/Paris"));
    assert_eq!(c.next_id, None);
    assert_eq!(c.timezone, Some(String::from("Europe/Paris")));
}

#[test]
fn new_config_is_empty() {
    match Config::new("12341234") {
        Ok(c) => {
            assert_eq!(c.token, "12341234");
            assert!(c.projects.is_empty());
            assert_eq!(c.next_id, None);
            assert_eq!(c.timezone, None);
            assert!(c.path.ends_with("/tod.cfg"));
        }
        Err(e) => assert_eq!(e, Error::IoError(String::from("Could not find config directory"))),
    }
    match generate_legacy_path() {
        Ok(p) => assert!(p.ends_with("/.tod.cfg")),
        Err(e) => assert_eq!(e, Error::IoError(String::from("Could not find home directory"))),
    }
    if let Ok(p) = generate_path() {
        assert!(p.len() > "/tod.cfg".len());
    }
}

#[test]
fn request_bodies() {
    assert_eq!(project_data_body(0), "{\"project_id\":0}");
    assert_eq!(project_data_body(2203306141), "{\"project_id\":2203306141}");
    assert_eq!(
        close_body("\"112233\"", "u", "t"),
        "{\"commands\":[{\"type\":\"item_close\",\"uuid\":\"u\",\"temp_id\":\"t\",\"args\":{\"id\":\"112233\"}}]}"
    );
}

fn is_uuid_v4(s: &str) -> bool {
    let b = s.as_bytes();
    b.len() == 36
        && b.iter().enumerate().all(|(i, c)| {
            if i == 8 || i == 13 || i == 18 || i == 23 {
                *c == b'-'
            } else {
                c.is_ascii_digit() || (b'a'..=b'f').contains(c)
            }
        })
        && b[14] == b'4'
        && matches!(b[19], b'8' | b'9' | b'a' | b'b')
}

#[test]
fn close_command_quotes_id_and_carries_fresh_keys() {
    let body = close_command("112233");
    let prefix = "{\"commands\":[{\"type\":\"item_close\",\"uuid\":\"";
    assert!(body.starts_with(prefix));
    assert!(body.ends_with(",\"args\":{\"id\":\"112233\"}}]}"));
    let uuid = &body[prefix.len()..prefix.len() + 36];
    let temp = &body[prefix.len() + 36 + 13..prefix.len() + 36 + 13 + 36];
    assert!(is_uuid_v4(uuid));
    assert!(is_uuid_v4(temp));
    assert_ne!(uuid, temp);
    let quoted = close_command("say \"hi\"");
    assert!(quoted.ends_with("{\"id\":\"say \\\"hi\\\"\"}}]}"));
    let k = IdempotencyKey::fresh();
    assert!(is_uuid_v4(k.as_str()));
    assert_ne!(k.as_str(), IdempotencyKey::fresh().as_str());
}

#[test]
fn response_status() {
    assert_eq!(check_response(200, String::from("{}")), Ok(String::from("{}")));
    assert_eq!(check_response(204, String::new()), Ok(String::new()));
    assert_eq!(
        check_response(403, String::from("Forbidden")),
        Err(Error::RemoteError { status: 403, body: String::from("Forbidden") })
    );
    assert_eq!(
        check_response(199, String::new()),
        Err(Error::RemoteError { status: 199, body: String::new() })
    );
}

#[test]
fn registry_rebuilt_from_entries_in_any_order() {
    let mut c = config();
    c.add_project(String::from("work"), 7);
    c.add_project(String::from("errands"), 9);
    let mut shuffled = c.projects.clone();
    shuffled.reverse();
    assert_eq!(registry_from(shuffled), c.projects);
    let entries = vec![(String::from("b"), 2), (String::from("a"), 1), (String::from("c"), 3)];
    assert_eq!(
        registry_from(entries),
        vec![(String::from("a"), 1), (String::from("b"), 2), (String::from("c"), 3)]
    );
    assert!(registry_from(vec![]).is_empty());
    let mut v = vec![(String::from("a"), 1)];
    insert_entry(&mut v, String::from("a"), 5);
    assert_eq!(v, vec![(String::from("a"), 5)]);
}

#[test]
fn should_complete_an_item() {
    let config = match Config::new("12341234") {
        Ok(c) => c,
        Err(_) => config(),
    }
    .set_next_id(String::from("112233"));
    let task_id = match begin_complete(&config) {
        Completion::Close(id) => id,
        Completion::Select => panic!("expected a close"),
    };
    assert_eq!(task_id, "112233");
    let body = close_command(&task_id);
    assert!(body.contains("\"type\":\"item_close\""));
    assert!(body.ends_with("\"args\":{\"id\":\"112233\"}}]}"));
    let sync = String::from("{\"sync_status\":{},\"temp_id_mapping\":{}}");
    let outcome = check_response(200, sync).map(|_| ());
    let (config, response) = after_close(config, outcome);
    assert_eq!(response, Ok(()));
    assert_eq!(config.next_id, None);
}

#[test]
fn paths_in_directories() {
    assert_eq!(
        path_in(DirLookup::Found(String::from("/home/u/.config")), "tod.cfg", "config"),
        Ok(String::from("/home/u/.config/tod.cfg"))
    );
    assert_eq!(
        path_in(DirLookup::Missing, "tod.cfg", "config"),
        Err(Error::IoError(String::from("Could not find config directory")))
    );
    assert_eq!(
        path_in(DirLookup::NotUtf8, ".tod.cfg", "home"),
        Err(Error::IoError(String::from("Could not convert home directory to string")))
    );
}

#[test]
fn fresh_state_in_config_directory() {
    let c = Config::new_in("12341234", DirLookup::Found(String::from("/cfg"))).unwrap();
    assert_eq!(c, Config::fresh("12341234", String::from("/cfg/tod.cfg")));
    assert_eq!(c.token, "12341234");
    assert_eq!(c.path, "/cfg/tod.cfg");
    assert!(c.projects.is_empty());
    assert_eq!(c.next_id, None);
    assert_eq!(c.timezone, None);
    assert_eq!(c.last_version_check, None);
    assert_eq!(
        Config::new_in("t", DirLookup::Missing),
        Err(Error::IoError(String::from("Could not find config directory")))
    );
    assert_eq!(
        Config::new_in("t", DirLookup::NotUtf8),
        Err(Error::IoError(String::from("Could not convert config directory to string")))
    );
}

#[test]
fn relocated_state_takes_new_path() {
    let c = config();
    let (same, moved) = c.clone().relocated("/tmp/tod.cfg");
    assert!(!moved);
    assert_eq!(same, c);
    let (other, moved) = c.clone().relocated("/home/u/.config/tod.cfg");
    assert!(moved);
    assert_eq!(other.path, "/home/u/.config/tod.cfg");
    assert_eq!(other.token, c.token);
    assert_eq!(other.projects, c.projects);
}

#[test]
fn close_command_escapes_controls() {
    let body = close_command("a\u{1}b\\");
    assert!(body.ends_with("{\"id\":\"a\\u0001b\\\\\"}}]}"));
    let tab = close_command("x\ty");
    assert!(tab.ends_with("{\"id\":\"x\\ty\"}}]}"));
}
