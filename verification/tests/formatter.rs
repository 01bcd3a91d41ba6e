use todo_core::entry::Entry;
use todo_core::formatter::{BasicForm, FancyForm, Format, Formatter, Type};

fn entry(name: &str, complete: bool) -> Entry {
    Entry { name: String::from(name), complete }
}

#[test]
fn basic_lines() {
    let f = Formatter::new(2, 'X', ' ', Type::Basic);
    assert_eq!(f.format(&entry("Root", false), 0, true), "[ ]: Root");
    assert_eq!(f.format(&entry("Child", true), 1, false), "  [X]: Child");
    assert_eq!(f.format(&entry("Deep", true), 3, false), "      [X]: Deep");
}

#[test]
fn fancy_lines() {
    let f = Formatter::default();
    assert_eq!(f.format(&entry("Root", false), 0, true), "┌[ ]: Root");
    assert_eq!(f.format(&entry("Child 1", true), 1, true), "├─┬[X]: Child 1");
    assert_eq!(f.format(&entry("Child 1 child", true), 2, false), "│ ├──[X]: Child 1 child");
    assert_eq!(f.format(&entry("Child 2", false), 1, false), "├──[ ]: Child 2");
    assert_eq!(f.format(&entry("x", false), 3, true), "│ │ ├─┬[ ]: x");
}

#[test]
fn fancy_indent_widens_the_branch() {
    let f = FancyForm::new(3, '+', '-');
    assert_eq!(f.format(&entry("a", true), 2, false), "│   ├────[+]: a");
    let b = BasicForm::new(0, '+', '-');
    assert_eq!(b.format(&entry("a", false), 5, true), "[-]: a");
}

#[test]
fn set_changes_what_is_given() {
    let mut f = Formatter::default();
    assert_eq!(f.get_indent(), 1);
    assert_eq!(f.get_completed(), 'X');
    assert_eq!(f.get_incomplete(), ' ');
    assert_eq!(f.get_type(), Type::Fancy);
    f.set(Some(4), None, Some('.'), None);
    assert_eq!(f.get_indent(), 4);
    assert_eq!(f.get_completed(), 'X');
    assert_eq!(f.get_incomplete(), '.');
    assert_eq!(f.get_type(), Type::Fancy);
    f.set(None, None, None, Some(Type::Basic));
    assert_eq!(f.get_type(), Type::Basic);
    assert_eq!(f.format(&entry("t", false), 1, false), "    [.]: t");
    f.set(None, None, None, None);
    assert_eq!(f.get_indent(), 4);
    let g = f.clone();
    assert_eq!(g.format(&entry("t", true), 1, false), "    [X]: t");
}
