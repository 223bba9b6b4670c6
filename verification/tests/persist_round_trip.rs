use mycli::fname::{branch_file_name, split_file_name};
use mycli::persist::{load_branch, save_branch};
use mycli::store::{Branch, Message, MessageFrom};

fn sample_branch() -> Branch {
    Branch {
        id: 3,
        name: "branch-3".to_string(),
        messages: vec![
            Message { from: MessageFrom::User, content: "hi there".to_string() },
            Message { from: MessageFrom::Assistant, content: "line one\nline \"two\"".to_string() },
            Message { from: MessageFrom::System, content: "tab\there \\ done".to_string() },
        ],
    }
}

#[test]
fn save_produces_the_documented_document() {
    let b = Branch {
        id: 0,
        name: "main".to_string(),
        messages: vec![Message { from: MessageFrom::User, content: "hi".to_string() }],
    };
    assert_eq!(
        save_branch(&b),
        "{\"id\":0,\"name\":\"main\",\"messages\":[{\"role\":\"user\",\"content\":\"hi\"}]}"
    );
}

#[test]
fn save_then_load_reconstructs_the_branch() {
    let b = sample_branch();
    let text = save_branch(&b);
    let back = load_branch(&text).expect("an encoded branch parses");
    assert_eq!(back.id, b.id);
    assert_eq!(back.name, b.name);
    assert_eq!(back.messages.len(), b.messages.len());
    for (m1, m2) in b.messages.iter().zip(back.messages.iter()) {
        assert_eq!(m1.from, m2.from);
        assert_eq!(m1.content, m2.content);
    }
}

#[test]
fn empty_branch_round_trips() {
    let b = Branch { id: 0, name: "main".to_string(), messages: vec![] };
    let text = save_branch(&b);
    assert_eq!(text, "{\"id\":0,\"name\":\"main\",\"messages\":[]}");
    let back = load_branch(&text).expect("parses");
    assert_eq!(back.name, "main");
    assert!(back.messages.is_empty());
}

#[test]
fn load_rejects_malformed_documents() {
    assert!(load_branch("").is_none());
    assert!(load_branch("{}").is_none());
    assert!(load_branch("{\"id\":1,\"name\":\"x\",\"messages\":[]").is_none());
    assert!(load_branch("{\"id\":,\"name\":\"x\",\"messages\":[]}").is_none());
    assert!(load_branch("{\"id\":1,\"name\":\"x\",\"messages\":[]}trailing").is_none());
    assert!(
        load_branch("{\"id\":1,\"name\":\"x\",\"messages\":[{\"role\":\"robot\",\"content\":\"hi\"}]}")
            .is_none()
    );
}

#[test]
fn load_accepts_escapes() {
    let text = "{\"id\":7,\"name\":\"n\\n\",\"messages\":[{\"role\":\"assistant\",\"content\":\"a\\\"b\\\\c\\td\"}]}";
    let b = load_branch(text).expect("parses");
    assert_eq!(b.id, 7);
    assert_eq!(b.name, "n\n");
    assert_eq!(b.messages[0].content, "a\"b\\c\td");
}

#[test]
fn file_names_are_unambiguous() {
    // A branch name containing the separator cannot be confused with a
    // session key containing it.
    let n1 = branch_file_name("Session 1", "a_b");
    let n2 = branch_file_name("Session 1_a", "b");
    assert_ne!(n1, n2);
    let (s1, b1) = split_file_name(&n1).expect("splits");
    assert_eq!((s1.as_str(), b1.as_str()), ("Session 1", "a_b"));
    let (s2, b2) = split_file_name(&n2).expect("splits");
    assert_eq!((s2.as_str(), b2.as_str()), ("Session 1_a", "b"));
}

#[test]
fn file_name_round_trips_odd_characters() {
    let session = "100%_done_%u";
    let branch = "b_%p_";
    let name = branch_file_name(session, branch);
    let (s, b) = split_file_name(&name).expect("splits");
    assert_eq!(s, session);
    assert_eq!(b, branch);
}

#[test]
fn plain_file_name_has_the_documented_shape() {
    assert_eq!(branch_file_name("1716", "main"), "1716_main.json");
    let (s, b) = split_file_name("1716_main.json").expect("splits");
    assert_eq!((s.as_str(), b.as_str()), ("1716", "main"));
}

#[test]
fn split_rejects_foreign_names() {
    assert!(split_file_name("no-suffix").is_none());
    assert!(split_file_name("nounderscore.json").is_none());
    assert!(split_file_name("two_under_scores.json").is_none());
    assert!(split_file_name("bad%escape_x.json").is_none());
}
