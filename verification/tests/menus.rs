use todo_core::colors::{color_string, default_color, load_colors, save_colors, Colors};
use todo_core::control::{config_controls, entry_controls, new_prompt, ControlSettings, Prompt};
use todo_core::controls::{Controls, HelpControls, ItemControls, MainControls, Selection};
use todo_core::display::Display;
use todo_core::entry::Entry;
use todo_core::formatter::{Formatter, Type};
use todo_core::key::{Color, KeyCode};
use todo_core::layout::{resize, set_mode, Coord, ListUi, MainUiUpdate, Mode, PromptUpdate};
use todo_core::listing::{find_pos, is_child, lines, visible_id};
use todo_core::menu::{
    color_menu_lines, control_menu_lines, formatter_example, formatter_select, help_lines,
    help_scroll, main_choice, main_menu_lines, main_prompt, parse_number, parse_u8, step_down,
    step_up, typed_color, with_tip, HelpMenuType, MenuChoice,
};
use todo_core::store::Core;
use todo_core::text::{blanks, padded_left, padded_right, relabel, repeated, u8_string};
use todo_core::topology::Position;
use todo_core::tree::NodeInfo;

#[test]
fn keys_by_name() {
    assert_eq!(KeyCode::Backspace.display(), "Backspace");
    assert_eq!(KeyCode::PageDown.display(), "PageDown");
    assert_eq!(KeyCode::Char('a').display(), "a");
    assert_eq!(KeyCode::Char(' ').display(), "Space");
    assert_eq!(KeyCode::Char(',').display(), ",(<)");
    assert_eq!(KeyCode::Char('.').display(), ".(>)");
    assert_eq!(KeyCode::F(7).display(), "F7");
    assert_eq!(KeyCode::F(12).display(), "F12");
    assert_eq!(KeyCode::F(255).display(), "F255");
    assert_eq!('x'.display(), "x");
}

#[test]
fn colors_by_component() {
    assert_eq!(Color::Rgb { r: 255, g: 0, b: 17 }.display(), "r:255, g:  0, b: 17");
    assert_eq!(Color::Named.display(), "");
}

#[test]
fn numbers_and_padding() {
    assert_eq!(u8_string(0), "0");
    assert_eq!(u8_string(9), "9");
    assert_eq!(u8_string(10), "10");
    assert_eq!(u8_string(109), "109");
    assert_eq!(u8_string(255), "255");
    assert_eq!(padded_left("ab", 4), "  ab");
    assert_eq!(padded_left("abcd", 2), "abcd");
    assert_eq!(padded_right("ab", 4), "ab  ");
    assert_eq!(padded_right("äb", 3), "äb ");
    assert_eq!(blanks(3), "   ");
    assert_eq!(repeated("ab", 3), "ababab");
    assert_eq!(repeated("ab", 0), "");
}

#[test]
fn relabel_keeps_what_stands_before_the_colon() {
    assert_eq!(relabel("Indent     :", "4"), "Indent     : 4");
    assert_eq!(relabel("Escape           : \"Esc\"", "\"q\""), "Escape           : \"q\"");
    assert_eq!(relabel("a:b:c", "x"), "a: x");
    assert_eq!(relabel(":", ""), ": ");
}

#[test]
fn menu_keys() {
    let c = Controls::default();
    assert_eq!(c.main(KeyCode::Esc), Some(MainControls::Esc));
    assert_eq!(c.main(KeyCode::Char('h')), Some(MainControls::Help));
    assert_eq!(c.main(KeyCode::Char('s')), None);
    assert_eq!(c.item(KeyCode::Right), Some(ItemControls::IncDepth));
    assert_eq!(c.item(KeyCode::Left), Some(ItemControls::DecDepth));
    assert_eq!(c.item(KeyCode::Char(' ')), Some(ItemControls::Toggle));
    assert_eq!(c.item(KeyCode::Char('m')), Some(ItemControls::Move));
    assert_eq!(c.item(KeyCode::Char('c')), Some(ItemControls::Copy));
    assert_eq!(c.item(KeyCode::Char('o')), Some(ItemControls::PrintUnfinished));
    assert_eq!(c.item(KeyCode::Tab), None);
    assert_eq!(c.help(KeyCode::Char('h')), Some(HelpControls::Esc));
    assert_eq!(c.help(KeyCode::Down), Some(HelpControls::Down));
    assert_eq!(c.multi_select(KeyCode::Enter), Some(Selection::Select));
    assert_eq!(c.multi_select(KeyCode::Right), None);
    assert_eq!(c.position(KeyCode::Up), Some(Position::SiblingBefore));
    assert_eq!(c.position(KeyCode::Down), Some(Position::SiblingAfter));
    assert_eq!(c.position(KeyCode::Left), Some(Position::FirstChild));
    assert_eq!(c.position(KeyCode::Right), Some(Position::LastChild));
    assert_eq!(c.position(KeyCode::Enter), None);
}

#[test]
fn the_first_binding_of_a_key_wins() {
    let mut c = Controls::default();
    *c.index_field(6).unwrap() = KeyCode::Up;
    assert_eq!(c.toggle, KeyCode::Up);
    assert_eq!(c.item(KeyCode::Up), Some(ItemControls::PointerUp));
    *c.index_field(1).unwrap() = KeyCode::Char('k');
    assert_eq!(c.item(KeyCode::Up), Some(ItemControls::Toggle));
    assert_eq!(c.item(KeyCode::Char('k')), Some(ItemControls::PointerUp));
    assert!(c.index_field(14).is_none());
    *c.index_field(13).unwrap() = KeyCode::F(2);
    assert_eq!(c.move_entry, KeyCode::F(2));
    *c.index_field(0).unwrap() = KeyCode::Char('q');
    assert_eq!(c.escape, KeyCode::Char('q'));
}

#[test]
fn menu_lines() {
    let c = Controls::default();
    assert_eq!(c.help_tip(), "Press \"h\" to open the help menu.");
    assert_eq!(
        c.item_prompt(),
        "Exit: \"Esc\", Up: \"Up\", Down: \"Down\", Increase Depth: \"Right\", Decrease Depth: \"Left\", Select: \"Enter\"\nPress \"h\" to open the help menu."
    );
    assert_eq!(
        c.help_prompt(),
        "Exit: \"Esc\" or \"h\", Scroll Up: \"Up\", Scroll Down: \"Down\""
    );
    assert_eq!(
        c.select_prompt(),
        "Cancel: \"Esc\", Up: \"Up\", Down: \"Down\", Select: \"Enter\""
    );
    assert_eq!(
        c.position_prompt(),
        "Where? first child: \"Left\", last child: \"Right\", sibling above: \"Up\", Sibling below: \"Down\""
    );
    assert_eq!(c.position_root_prompt(), "Where? first child: \"Left\", last child: \"Right\"");
}

#[test]
fn settings_lines() {
    let s = ControlSettings::new();
    assert_eq!(s.to_string(0), "Move up                    : Up");
    assert_eq!(s.to_string(7), "Toggle completed           : Space");
    assert_eq!(s.to_string(9), "Save unfinished to txt file: o");
    assert_eq!(
        entry_controls(&s),
        "Up: move up    Down: move down    Right: increase depth    Left: decrease depth    o: unfinished to txt\n\
         Enter: add entry    Delete: remove entry    Space: check entry    Esc: save and exit    p: save to txt\n\
         .(>): set focus    ,(<): return focus    s: save    e: edit item    c: config menu"
    );
    assert_eq!(
        config_controls(&s),
        "\nUp: move up    Down: move down    Enter: change key    Delete: reset key    Esc or c: exit menu\n"
    );
}

#[test]
fn settings_are_stored_and_read() {
    let mut s = ControlSettings::new();
    s.set_key_at_num(3, KeyCode::F(4));
    let bytes = s.save();
    assert_eq!(bytes.len(), 80);
    assert_eq!(&bytes[..5], &[17u8, 0, 0, 0, 0]);
    assert_eq!(&bytes[15..20], &[8u8, 4, 0, 0, 0]);
    assert_eq!(&bytes[70..75], &[2u8, 0, 0, 0, 99]);
    assert_eq!(&bytes[75..80], &[2u8, 0, 0, 0, 99]);
    let mut file = vec![1u8, 2, 3, 4, 5, 6];
    file.extend_from_slice(&bytes);
    let back = ControlSettings::load(&file).unwrap();
    for i in 0..15 {
        assert_eq!(back.to_string(i), s.to_string(i));
    }
    assert!(ControlSettings::load(&file[..80]).is_none());
    file[6] = 99;
    assert!(ControlSettings::load(&file).is_none());
}

#[test]
fn a_key_without_bytes_is_stored_as_the_key_before_it() {
    let mut s = ControlSettings::new();
    s.set_key_at_num(0, KeyCode::Char('a'));
    s.set_key_at_num(1, KeyCode::Backspace);
    let bytes = s.save();
    assert_eq!(&bytes[..5], &[2u8, 0, 0, 0, 97]);
    assert_eq!(&bytes[5..10], &[2u8, 0, 0, 0, 97]);
    assert_eq!(&bytes[10..15], &[11u8, 0, 0, 0, 97]);
}

#[test]
fn the_colors_of_the_menus() {
    let mut c = Colors::new();
    assert_eq!(c.default, Color::Rgb { r: 255, g: 255, b: 255 });
    assert_eq!(c.background, Color::Rgb { r: 0, g: 0, b: 0 });
    assert_eq!(c.pointer, Color::Rgb { r: 0, g: 255, b: 255 });
    assert_eq!(c.selected, Color::Rgb { r: 255, g: 0, b: 255 });
    *c.index_field(2).unwrap() = Color::Named;
    assert_eq!(c.pointer, Color::Named);
    assert!(c.index_field(4).is_none());
}

#[test]
fn the_two_colors_of_the_settings_file() {
    let mut pair = load_colors(None);
    assert_eq!(pair, [Color::Rgb { r: 255, g: 255, b: 255 }, Color::Rgb { r: 0, g: 255, b: 255 }]);
    pair[1] = Color::Rgb { r: 1, g: 2, b: 3 };
    pair[0] = Color::Named;
    assert_eq!(save_colors(&pair), vec![255u8, 255, 255, 1, 2, 3]);
    assert_eq!(
        load_colors(Some(&[9, 8, 7, 6, 5, 4, 3])),
        [Color::Rgb { r: 9, g: 8, b: 7 }, Color::Rgb { r: 6, g: 5, b: 4 }]
    );
    assert_eq!(color_string(&pair, 1), "Highlight Color: r:  1, g:  2, b:  3");
    assert_eq!(color_string(&pair, 0), "Normal Color   : ");
    assert_eq!(color_string(&pair, 2), "");
    default_color(&mut pair, 0);
    default_color(&mut pair, 5);
    assert_eq!(pair, [Color::Rgb { r: 255, g: 255, b: 255 }, Color::Rgb { r: 1, g: 2, b: 3 }]);
    default_color(&mut pair, 1);
    assert_eq!(pair[1], Color::Rgb { r: 0, g: 255, b: 255 });
}

#[test]
fn the_pointer_goes_round() {
    let mut ui = ListUi::new();
    ui.inc_pointer(1, 3);
    assert_eq!(ui.pointer(), 1);
    ui.inc_pointer(2, 3);
    assert_eq!(ui.pointer(), 0);
    ui.dec_pointer(1, 3);
    assert_eq!(ui.pointer(), 2);
    ui.dec_pointer(7, 3);
    assert_eq!(ui.pointer(), 1);
    ui.select();
    assert_eq!(ui.selected(), Some(1));
    ui.set_pointer_no_update(9);
    ui.refresh(4);
    assert_eq!(ui.pointer(), 4);
    ui.refresh(6);
    assert_eq!(ui.pointer(), 4);
    assert_eq!(ui.selected(), Some(1));
    ui.deselect();
    assert_eq!(ui.selected(), None);
}

#[test]
fn the_window_follows_the_pointer() {
    let mut ui = ListUi::new();
    assert_eq!(ui.offset(10, 30), 0);
    ui.set_pointer_no_update(5);
    assert_eq!(ui.offset(10, 30), 0);
    ui.set_pointer_no_update(6);
    assert_eq!(ui.offset(10, 30), 1);
    ui.set_pointer_no_update(24);
    assert_eq!(ui.offset(10, 30), 19);
    ui.set_pointer_no_update(25);
    assert_eq!(ui.offset(10, 30), 20);
    ui.set_pointer_no_update(29);
    assert_eq!(ui.offset(10, 30), 20);
    assert_eq!(ui.offset(30, 30), 0);
    assert_eq!(ui.offset(0, 30), 29);
}

#[test]
fn the_sizes_of_the_windows() {
    let screen = Coord { x: 80, y: 24 };
    let mut size = Coord { x: 0, y: 0 };
    MainUiUpdate {}.size_update(&screen, &mut size);
    assert_eq!(size, Coord { x: 80, y: 21 });
    let mut pos = Coord { x: 0, y: 0 };
    let mut size = Coord { x: 0, y: 3 };
    PromptUpdate {}.size_update(&screen, &mut pos, &mut size);
    assert_eq!(pos, Coord { x: 0, y: 21 });
    assert_eq!(size, Coord { x: 80, y: 3 });
}

#[test]
fn the_listing_as_text() {
    let mut core = Core::new(String::from("Root"));
    let a = core.new_entry(String::from("Child 1"), Position::LastChild, 0).unwrap();
    let aa = core.new_entry(String::from("Child 1 child"), Position::LastChild, a).unwrap();
    let b = core.new_entry(String::from("Child 2"), Position::LastChild, 0).unwrap();
    core.toggle_comp(a).unwrap();
    let fancy = Formatter::default();
    assert_eq!(
        lines(&core, &fancy, false),
        vec!["┌[ ]: Root", "├─┬[X]: Child 1", "│ ├──[X]: Child 1 child", "├──[ ]: Child 2"]
    );
    assert_eq!(lines(&core, &fancy, true), vec!["┌[ ]: Root", "├──[ ]: Child 2"]);
    let basic = Formatter::new(2, '+', '-', Type::Basic);
    core.dec_depth(1);
    assert_eq!(
        lines(&core, &basic, false),
        vec!["[-]: Root", "  [+]: Child 1", "  [-]: Child 2"]
    );
    let info = core.get_entries_info();
    assert_eq!(find_pos(&info, b), Some(2));
    assert_eq!(find_pos(&info, aa), None);
    assert!(is_child(&vec![aa, b], &info, 2));
    assert!(!is_child(&vec![aa, b], &info, 1));
    assert_eq!(visible_id(&core, NodeInfo { id: aa, depth: 2, child_count: 0 }), a);
    assert_eq!(visible_id(&core, NodeInfo { id: a, depth: 1, child_count: 1 }), a);
}

#[test]
fn the_plain_line_of_a_task() {
    let e = Entry { name: String::from("Milk"), complete: true };
    assert_eq!(e.to_string(0), "[X] Milk");
    assert_eq!(e.to_string(2), "        [X] Milk");
    let mut f = Entry::new(String::from("Eggs"));
    assert_eq!(f.to_string(1), "    [ ] Eggs");
    f.set_name(String::from("Bread"));
    assert_eq!(f.name, "Bread");
    assert!(!f.complete);
}

#[test]
fn the_lines_of_the_main_menu() {
    assert_eq!(main_menu_lines(), vec!["New Todo List.", "Load List.", "Settings."]);
    assert_eq!(main_choice(0), MenuChoice::NewList);
    assert_eq!(main_choice(1), MenuChoice::LoadFromPath);
    assert_eq!(main_choice(2), MenuChoice::Settings);
    assert_eq!(main_choice(3), MenuChoice::ChangeDir);
    assert_eq!(main_choice(4), MenuChoice::LoadFile(0));
    assert_eq!(main_choice(9), MenuChoice::LoadFile(5));
    assert_eq!(main_prompt(0), "Select to create a new todo list.");
    assert_eq!(main_prompt(3), "Select to change the current directory.");
    assert_eq!(main_prompt(17), "Select to open file.");
    assert_eq!(
        with_tip(main_prompt(1), &Controls::default()),
        "Select to load a todo list.\nPress \"h\" to open the help menu."
    );
}

#[test]
fn numbers_that_the_user_types() {
    assert_eq!(parse_number("0"), Some(0));
    assert_eq!(parse_number("42"), Some(42));
    assert_eq!(parse_number("+42"), Some(42));
    assert_eq!(parse_number("007"), Some(7));
    assert_eq!(parse_number(""), None);
    assert_eq!(parse_number("+"), None);
    assert_eq!(parse_number("-1"), None);
    assert_eq!(parse_number(" 1"), None);
    assert_eq!(parse_number("1a"), None);
    assert_eq!(parse_number("١"), None);
    assert_eq!(parse_number(&usize::MAX.to_string()), Some(usize::MAX));
    assert_eq!(parse_number(&format!("{}0", usize::MAX)), None);
    assert_eq!(parse_number("99999999999999999999999999999999"), None);
    for text in ["0", "12", "+3", "", "x", "256", "18446744073709551616"] {
        assert_eq!(parse_number(text), text.parse::<usize>().ok());
        assert_eq!(parse_u8(text), text.parse::<u8>().ok());
    }
    assert_eq!(parse_u8("255"), Some(255));
    assert_eq!(parse_u8("256"), None);
}

#[test]
fn a_step_stays_within_the_rows() {
    let mut ui = ListUi::new();
    step_up(&mut ui, 4);
    assert_eq!(ui.pointer(), 3);
    step_down(&mut ui, 4);
    assert_eq!(ui.pointer(), 0);
    step_down(&mut ui, 4);
    assert_eq!(ui.pointer(), 1);
    step_up(&mut ui, 4);
    assert_eq!(ui.pointer(), 0);
}

#[test]
fn the_user_changes_a_formatter() {
    let mut f = Formatter::default();
    assert!(formatter_select(&mut f, 0, "3"));
    assert_eq!(f.get_indent(), 3);
    assert!(!formatter_select(&mut f, 0, "three"));
    assert_eq!(f.get_indent(), 3);
    assert!(formatter_select(&mut f, 1, "#\n"));
    assert_eq!(f.get_completed(), '#');
    assert!(!formatter_select(&mut f, 2, ""));
    assert!(formatter_select(&mut f, 2, "\n"));
    assert_eq!(f.get_incomplete(), '\n');
    assert!(formatter_select(&mut f, 2, ".x"));
    assert_eq!(f.get_incomplete(), '.');
    assert!(formatter_select(&mut f, 3, "ignored"));
    assert_eq!(f.get_type(), Type::Basic);
    assert!(formatter_select(&mut f, 3, ""));
    assert_eq!(f.get_type(), Type::Fancy);
    assert!(!formatter_select(&mut f, 4, "1"));
    let d = Formatter::default();
    assert_eq!(
        formatter_example(&d),
        vec!["┌[ ]: Root", "├─┬[X]: Child 1", "│ ├──[X]: Child 1 child", "├──[ ]: Child 2"]
    );
}

#[test]
fn a_color_that_the_user_types() {
    assert_eq!(typed_color("1", "20", "255"), Some(Color::Rgb { r: 1, g: 20, b: 255 }));
    assert_eq!(typed_color("1", "256", "3"), None);
    assert_eq!(typed_color("", "2", "3"), None);
    assert_eq!(typed_color("1", "2", "x"), None);
}

#[test]
fn the_lines_of_the_settings_and_the_help() {
    let c = Controls::default();
    let keys = control_menu_lines(&c);
    assert_eq!(keys.len(), 14);
    assert_eq!(keys[0], "Escape           : \"Esc\"");
    assert_eq!(keys[6], "Toggle           : \"Space\"");
    assert_eq!(keys[10], "Print Unfinished : \"o\"");
    assert_eq!(keys[13], "Move Entry       : \"m\"");
    let colors = color_menu_lines(&Colors::new());
    assert_eq!(colors.len(), 8);
    assert_eq!(colors[0], "default    : r:255, g:255, b:255");
    assert_eq!(colors[3], "selected   : r:255, g:  0, b:255");
    assert_eq!(colors[4], "\nExamples:");
    assert_eq!(colors[7], "Selected");
    let main = help_lines(&c, HelpMenuType::Main);
    assert_eq!(main.len(), 4);
    assert_eq!(main[3], "Select       : \"Enter\"");
    let item = help_lines(&c, HelpMenuType::Item);
    assert_eq!(item.len(), 10);
    assert_eq!(item[8], "Print unfinished into .txt : \"o\"");
    let setting = help_lines(&c, HelpMenuType::Setting);
    assert_eq!(setting.len(), 6);
    assert_eq!(setting[1], "\nControls:");
    assert_eq!(setting[2], "Exit         : \"Esc\"");
    assert_eq!(help_scroll(0, false, 4), 0);
    assert_eq!(help_scroll(0, true, 4), 1);
    assert_eq!(help_scroll(3, true, 4), 3);
    assert_eq!(help_scroll(3, false, 4), 2);
}

#[test]
fn the_prompts_of_the_first_screens() {
    let s = ControlSettings::new();
    let all = new_prompt(&s);
    assert_eq!(all.len(), 11);
    assert_eq!(all[0], "\n\nEnter name of new todo list.\n:");
    assert_eq!(
        all[3],
        "\nFile not found.\nEnter name of todo list to load or nothing to make a new one.\n:"
    );
    assert_eq!(all[4], entry_controls(&s));
    assert_eq!(all[6], config_controls(&s));
    assert_eq!(all[10], "\n\nSet blue value 0-255\n:");
    assert_eq!(Prompt::SetG.index(), 9);
    assert_eq!(all[Prompt::EditName.index()], Prompt::EditName.text(&s));
    assert_eq!(Prompt::SetControl.text(&s), "\n\nPress key to change control\n:");
}

#[test]
fn the_windows_of_the_two_screens() {
    let screen = Coord { x: 80, y: 24 };
    let none = Coord { x: 0, y: 0 };
    assert_eq!(set_mode(Mode::Entry, screen), (Coord { x: 80, y: 20 }, none));
    assert_eq!(set_mode(Mode::Config, screen), (none, Coord { x: 80, y: 20 }));
    assert_eq!(
        resize(&screen),
        (Coord { x: 80, y: 21 }, Coord { x: 0, y: 21 }, Coord { x: 80, y: 3 })
    );
}
