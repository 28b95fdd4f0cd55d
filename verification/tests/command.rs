use coach::command::{command, Command};

fn args(items: &[&str]) -> Vec<String> {
    items.iter().map(|s| String::from(*s)).collect()
}

#[test]
fn train_takes_the_path() {
    let chosen = command(&args(&["coach", "train", "words.txt"]));
    assert!(matches!(chosen, Command::Train(path) if path == "words.txt"));
}

#[test]
fn create_takes_the_path() {
    let chosen = command(&args(&["coach", "create", "new.txt"]));
    assert!(matches!(chosen, Command::Create(path) if path == "new.txt"));
}

#[test]
fn another_mode_asks_for_the_usage() {
    assert!(matches!(command(&args(&["coach", "Train", "words.txt"])), Command::Usage));
    assert!(matches!(command(&args(&["coach", "learn", "words.txt"])), Command::Usage));
    assert!(matches!(command(&args(&["coach", "", "words.txt"])), Command::Usage));
}

#[test]
fn another_number_of_arguments_asks_for_the_usage() {
    assert!(matches!(command(&args(&[])), Command::Usage));
    assert!(matches!(command(&args(&["coach"])), Command::Usage));
    assert!(matches!(command(&args(&["coach", "train"])), Command::Usage));
    assert!(matches!(command(&args(&["coach", "train", "a", "b"])), Command::Usage));
}
