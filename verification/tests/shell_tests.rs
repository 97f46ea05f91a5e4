use ysos_core::shell::{argument, cat_plan, echo_plan, split_words, CatPlan, Command, EchoPlan};

#[test]
fn words_split_like_split_whitespace() {
    let line = "  echo\thello \u{3000}world  \n";
    assert_eq!(split_words(line), line.split_whitespace().collect::<Vec<_>>());
    assert!(split_words("   ").is_empty());
}

#[test]
fn commands_by_first_word() {
    assert_eq!(Command::from_str("ps"), Some(Command::Ps));
    assert_eq!(Command::from_str("  mkdir /tmp/x"), Some(Command::Mkdir));
    assert_eq!(Command::from_str("lsapp now"), Some(Command::ListApp));
    assert_eq!(Command::from_str("sh"), Some(Command::Shell));
    assert_eq!(Command::from_str("pss"), None);
    assert_eq!(Command::from_str(""), None);
    assert_eq!(argument("touch a b"), Some("a"));
    assert_eq!(argument("touch"), None);
}

#[test]
fn cat_lines() {
    assert_eq!(cat_plan("cat /boot/a.txt"), CatPlan::Show("/boot/a.txt"));
    assert_eq!(cat_plan("cat"), CatPlan::Usage);
    assert_eq!(cat_plan("cat a b"), CatPlan::Usage);
    assert_eq!(cat_plan("category"), CatPlan::NotCat);
    assert_eq!(cat_plan(""), CatPlan::NotCat);
}

#[test]
fn echo_lines() {
    assert_eq!(echo_plan("echo  hello   world"), EchoPlan::Print("hello world".to_string()));
    assert_eq!(echo_plan("echo"), EchoPlan::Print(String::new()));
    assert_eq!(echo_plan("echo > f"), EchoPlan::Usage);
    assert_eq!(echo_plan("echo hi >"), EchoPlan::Usage);
    assert_eq!(
        echo_plan("echo hi there > /tmp/f > g"),
        EchoPlan::Redirect { text: "hi there".to_string(), path: "/tmp/f" }
    );
    assert_eq!(echo_plan("say hi"), EchoPlan::NotEcho);
}
