use illiad::database::nesting::{nesting_within, MAX_NESTING};
use illiad::database::schema::{
    audiobook_fields, parse_info, scan_audiobook_direcories, scan_audiobook_directory, Child,
    DataRoot, INFO_FILE,
};
use illiad::models::audiobook::Audiobook;

fn s(text: &str) -> String {
    text.to_string()
}

fn book(title: &str, author: &str, path: &str) -> Audiobook {
    Audiobook { title: s(title), author: s(author), path: s(path) }
}

fn directory(path: &str, info: Option<&str>) -> Child {
    Child::Directory { path: s(path), info: info.map(|text| text.to_string()) }
}

const DUNE: &str = "title = \"Dune\"\nauthor = \"Frank Herbert\"\n";

#[test]
fn metadata_file_is_called_info() {
    assert_eq!(INFO_FILE, "info");
}

#[test]
fn info_gives_title_and_author() {
    assert_eq!(parse_info(DUNE), Some((s("Dune"), s("Frank Herbert"))));
}

#[test]
fn info_may_hold_more_than_title_and_author() {
    let text = "year = 1965\nauthor = \"Frank Herbert\"\nnarrator = \"X\"\ntitle = \"Dune\"\n";
    assert_eq!(parse_info(text), Some((s("Dune"), s("Frank Herbert"))));
}

#[test]
fn info_without_a_field_gives_nothing() {
    assert_eq!(parse_info("title = \"Dune\"\n"), None);
    assert_eq!(parse_info("author = \"Frank Herbert\"\n"), None);
    assert_eq!(parse_info(""), None);
}

#[test]
fn info_with_a_field_that_is_no_string_gives_nothing() {
    assert_eq!(parse_info("title = 5\nauthor = \"Frank Herbert\"\n"), None);
    assert_eq!(parse_info("title = \"Dune\"\nauthor = [\"Frank\", \"Herbert\"]\n"), None);
    assert_eq!(parse_info("[title]\nname = \"Dune\"\n"), None);
}

#[test]
fn info_that_is_no_toml_gives_nothing() {
    assert_eq!(parse_info("title = \"Dune\nauthor = "), None);
    assert_eq!(parse_info("this is not a document"), None);
    assert_eq!(parse_info("title: Dune\nauthor: Frank Herbert\n"), None);
}

#[test]
fn fields_are_both_or_nothing() {
    assert_eq!(audiobook_fields(Some(s("t")), Some(s("a"))), Some((s("t"), s("a"))));
    assert_eq!(audiobook_fields(Some(s("t")), None), None);
    assert_eq!(audiobook_fields(None, Some(s("a"))), None);
    assert_eq!(audiobook_fields(None, None), None);
}

#[test]
fn directory_with_info_holds_an_audiobook() {
    assert_eq!(
        scan_audiobook_directory(&s("/data/dune"), &Some(s(DUNE))),
        Some(book("Dune", "Frank Herbert", "/data/dune"))
    );
}

#[test]
fn directory_without_info_holds_none() {
    assert_eq!(scan_audiobook_directory(&s("/data/dune"), &None), None);
    assert_eq!(scan_audiobook_directory(&s("/data/dune"), &Some(s("title = 1"))), None);
}

#[test]
fn scan_passes_over_what_holds_no_audiobook() {
    let root = DataRoot::Children(vec![
        directory("/data/dune", Some(DUNE)),
        directory("/data/empty", None),
        Child::NotDirectory,
        directory("/data/broken", Some("title = ")),
        Child::Unreadable,
        directory("/data/half", Some("title = \"Half\"\n")),
        directory("/data/emma", Some("title = \"Emma\"\nauthor = \"Jane Austen\"\n")),
    ]);
    assert_eq!(
        scan_audiobook_direcories(&root),
        vec![
            book("Dune", "Frank Herbert", "/data/dune"),
            book("Emma", "Jane Austen", "/data/emma"),
        ]
    );
}

#[test]
fn scan_without_the_bad_directory_finds_the_same() {
    let with = DataRoot::Children(vec![
        directory("/data/dune", Some(DUNE)),
        directory("/data/empty", None),
        directory("/data/emma", Some("title = \"Emma\"\nauthor = \"Jane Austen\"\n")),
    ]);
    let without = DataRoot::Children(vec![
        directory("/data/dune", Some(DUNE)),
        directory("/data/emma", Some("title = \"Emma\"\nauthor = \"Jane Austen\"\n")),
    ]);
    assert_eq!(scan_audiobook_direcories(&with), scan_audiobook_direcories(&without));
    assert_eq!(scan_audiobook_direcories(&with).len(), 2);
}

#[test]
fn scan_of_nothing_finds_nothing() {
    assert_eq!(scan_audiobook_direcories(&DataRoot::Children(vec![])), vec![]);
    assert_eq!(scan_audiobook_direcories(&DataRoot::Unreadable), vec![]);
}

#[test]
fn scan_keeps_two_directories_of_one_book() {
    let root = DataRoot::Children(vec![
        directory("/data/first", Some(DUNE)),
        directory("/data/second", Some(DUNE)),
    ]);
    assert_eq!(
        scan_audiobook_direcories(&root),
        vec![
            book("Dune", "Frank Herbert", "/data/first"),
            book("Dune", "Frank Herbert", "/data/second"),
        ]
    );
}

#[test]
fn limit_of_nesting_is_128() {
    assert_eq!(MAX_NESTING, 128);
}

fn dune() -> Option<(String, String)> {
    Some((s("Dune"), s("Frank Herbert")))
}

#[test]
fn marks_in_strings_are_no_nesting() {
    let marks = "[{.".repeat(500);
    let title = format!("title = \"{}\"\nauthor = \"A\"\n", marks);
    assert!(nesting_within(&title));
    assert_eq!(parse_info(&title), Some((marks.clone(), s("A"))));
    let literal = format!("title = '{}'\nauthor = 'A'\n", marks);
    assert_eq!(parse_info(&literal), Some((marks.clone(), s("A"))));
    let dots = ".".repeat(129);
    let dotted = format!("title = \"{}\"\nauthor = \"A\"\n", dots);
    assert_eq!(parse_info(&dotted), Some((dots, s("A"))));
}

#[test]
fn marks_in_strings_of_several_lines_are_no_nesting() {
    let marks = "[[{{..".repeat(100);
    let text = format!(
        "{}about = \"\"\"\n{}\n\"quoted\" \"\" {}\\\"\"\" {}\n\"\"\"\nmore = '''\n{} ' '' {}'''\n",
        DUNE, marks, marks, marks, marks, marks
    );
    assert!(nesting_within(&text));
    assert_eq!(parse_info(&text), dune());
    let closing = format!("{}a = \"\"\"{}\"\"\"\"\"\nb = [[[1]]]\n", DUNE, marks);
    assert_eq!(parse_info(&closing), dune());
}

#[test]
fn marks_in_comments_are_no_nesting() {
    let marks = "[{.".repeat(500);
    let text = format!(
        "# {}\n{}x = [ # {}\n 1, # {}\n 2 ] # {}\n",
        marks, DUNE, marks, marks, marks
    );
    assert!(nesting_within(&text));
    assert_eq!(parse_info(&text), dune());
}

#[test]
fn escaped_quotes_do_not_end_a_string() {
    let marks = "[{.".repeat(100);
    let text =
        format!("{}a = \"x \\\" {} \\\\\"\nb = 'c:\\{}\\'\n", DUNE, marks, marks);
    assert!(nesting_within(&text));
    assert_eq!(parse_info(&text), dune());
}

#[test]
fn quoted_keys_are_no_nesting() {
    let (a, b) = ("a.".repeat(200), "b.".repeat(200));
    let text = format!("{}\"{}\" = 1\n[\"{}\"]\nx = 1\n", DUNE, a, b);
    assert!(nesting_within(&text));
    assert_eq!(parse_info(&text), dune());
}

#[test]
fn many_flat_values_are_no_nesting() {
    let mut text = s(DUNE);
    for i in 0..300 {
        text += &format!("length{} = {}.5\nday{} = 1979-05-27T07:32:00.999Z\n", i, i, i);
    }
    text += "numbers = [\n";
    for i in 0..300 {
        text += &format!("  {}.25,\n", i);
    }
    text += "]\npairs = [\n";
    for i in 0..300 {
        text += &format!("  [{}.5, 2.5],\n", i);
    }
    text += "]\ntables = [\n";
    for i in 0..300 {
        text += &format!("  {{ a.b = {}.5, c = [1.5] }},\n", i);
    }
    text += "]\n";
    for i in 0..300 {
        text += &format!("[[chapter]]\nname = \"Chapter {}.\"\nstart = {}.5\n", i, i);
        text += "[chapter.notes]\nx = 1\n";
    }
    assert!(nesting_within(&text));
    assert_eq!(parse_info(&text), dune());
}

#[test]
fn arrays_nest_up_to_the_limit() {
    let text = format!("{}deep = {}{}\n", DUNE, "[".repeat(128), "]".repeat(128));
    assert!(nesting_within(&text));
    assert_eq!(parse_info(&text), dune());
    let text = format!("{}deep = {}{}\n", DUNE, "[".repeat(129), "]".repeat(129));
    assert!(!nesting_within(&text));
    assert_eq!(parse_info(&text), None);
}

#[test]
fn inline_tables_nest_up_to_the_limit() {
    let text = format!("{}deep = {}1{}\n", DUNE, "{ a = ".repeat(128), " }".repeat(128));
    assert!(nesting_within(&text));
    assert_eq!(parse_info(&text), dune());
    let text = format!("{}deep = {}1{}\n", DUNE, "{ a = ".repeat(129), " }".repeat(129));
    assert_eq!(parse_info(&text), None);
}

#[test]
fn keys_nest_up_to_the_limit() {
    let text = format!("{}a{} = 1\n", DUNE, ".a".repeat(128));
    assert!(nesting_within(&text));
    assert_eq!(parse_info(&text), dune());
    let text = format!("{}a{} = 1\n", DUNE, ".a".repeat(129));
    assert!(!nesting_within(&text));
    assert_eq!(parse_info(&text), None);
}

#[test]
fn headers_nest_up_to_the_limit() {
    let text = format!("{}[t{}]\nx = 1\n", DUNE, ".t".repeat(127));
    assert!(nesting_within(&text));
    assert_eq!(parse_info(&text), dune());
    let text = format!("{}[t{}]\nx = 1\n", DUNE, ".t".repeat(128));
    assert!(!nesting_within(&text));
    assert_eq!(parse_info(&text), None);
}

#[test]
fn levels_of_header_key_and_value_add_up() {
    let (t, k) = (".t".repeat(39), ".k".repeat(40));
    let inside = format!("[t{}]\nk{} = {}{}\n", t, k, "[".repeat(48), "]".repeat(48));
    let text = format!("{}{}", DUNE, inside);
    assert!(nesting_within(&text));
    assert_eq!(parse_info(&text), dune());
    let inside = format!("[t{}]\nk{} = {}{}\n", t, k, "[".repeat(49), "]".repeat(49));
    let text = format!("{}{}", DUNE, inside);
    assert!(!nesting_within(&text));
    assert_eq!(parse_info(&text), None);
}

#[test]
fn a_level_ends_where_its_value_ends() {
    let mut text = s(DUNE);
    for _ in 0..50 {
        text += &format!("a{} = {}{}\n", ".a".repeat(60), "[".repeat(60), "]".repeat(60));
        let (x, y) = (".x".repeat(100), ".y".repeat(100));
        text += &format!("b = {{ x{} = 1, y{} = [[2]] }}\n", x, y);
    }
    assert!(nesting_within(&text));
}

#[test]
fn info_of_nothing_but_opening_brackets_is_not_read() {
    let text = format!("a = {}", "[".repeat(100_000));
    assert!(!nesting_within(&text));
    assert_eq!(parse_info(&text), None);
    assert_eq!(scan_audiobook_directory(&s("/data/deep"), &Some(text)), None);
    let braces = format!("a = {}", "{ a = ".repeat(100_000));
    assert_eq!(parse_info(&braces), None);
    let dots = format!("a{} = 1", ".a".repeat(100_000));
    assert_eq!(parse_info(&dots), None);
    let header = format!("[a{}]", ".a".repeat(100_000));
    assert_eq!(parse_info(&header), None);
    let unclosed = format!("a = \"x\nb = {}", "[".repeat(100_000));
    assert_eq!(parse_info(&unclosed), None);
}

#[test]
fn byte_order_mark_hides_no_header() {
    let text = format!("\u{feff}[t{}]\ntitle = \"Dune\"\n", ".t".repeat(127));
    assert!(nesting_within(&text));
    let text = format!("\u{feff}[t{}]\nx = 1\n", ".t".repeat(128));
    assert!(!nesting_within(&text));
    assert_eq!(parse_info(&text), None);
    let text = format!("\u{feff}{}", DUNE);
    assert_eq!(parse_info(&text), dune());
}

#[test]
fn blank_lines_and_comments_hide_no_header() {
    let text = format!("\n  \t\n# [x]\n \t[t{}]\nx = 1\n", ".t".repeat(128));
    assert!(!nesting_within(&text));
    let text = format!("a = 1 # x\r\n[t{}]\r\nx = 1\r\n", ".t".repeat(128));
    assert!(!nesting_within(&text));
    let text = format!("a = [\n1,\n]\n[[t{}]]\nx = 1\n", ".t".repeat(127));
    assert!(!nesting_within(&text));
    let text = format!("a = \"\"\"\nx\"\"\"\n[t{}]\nx = 1\n", ".t".repeat(128));
    assert!(!nesting_within(&text));
}

struct Dice(u64);

impl Dice {
    fn roll(&mut self, sides: usize) -> usize {
        self.0 = self.0.wrapping_mul(6364136223846793005).wrapping_add(1442695040888963407);
        ((self.0 >> 33) as usize) % sides
    }

    fn content(&mut self, alphabet: &[&str], longest: usize) -> String {
        let mut text = String::new();
        for _ in 0..self.roll(longest) {
            text += alphabet[self.roll(alphabet.len())];
        }
        text
    }

    fn statement(&mut self, i: usize) -> String {
        let marks = ["[", "]", "{", "}", ".", "#", "=", ",", " ", "a", "é"];
        match self.roll(6) {
            0 => {
                let mut alphabet = marks.to_vec();
                alphabet.extend(["\\\"", "\\\\", "'", "\\n", "\\u00e9"]);
                format!("k{} = \"{}\"\n", i, self.content(&alphabet, 30))
            }
            1 => {
                let mut alphabet = marks.to_vec();
                alphabet.extend(["\"", "\\"]);
                format!("k{} = '{}'\n", i, self.content(&alphabet, 30))
            }
            2 => {
                let mut alphabet = marks.to_vec();
                alphabet.extend(["\\\"", "\\\\", "'", "\n", "\"a", "\"\"a", "\\\n  "]);
                let tail = ["", "\"", "\"\""][self.roll(3)];
                format!("k{} = \"\"\"{}{}\"\"\"\n", i, self.content(&alphabet, 30), tail)
            }
            3 => {
                let mut alphabet = marks.to_vec();
                alphabet.extend(["\"", "\\", "\n", "'a", "''a", "\"\"\""]);
                let tail = ["", "'", "''"][self.roll(3)];
                format!("k{} = '''{}{}'''\n", i, self.content(&alphabet, 30), tail)
            }
            4 => {
                let mut alphabet = marks.to_vec();
                alphabet.extend(["\"", "'", "\\", "\"\"\"", "'''"]);
                format!("# {}\n", self.content(&alphabet, 30))
            }
            _ => format!("\"q{}.{}\" = [1.5, 2.5] # [[\n", i, self.content(&["a", ".", " "], 9)),
        }
    }
}

#[test]
fn strings_and_comments_of_every_kind_are_passed_over() {
    let mut dice = Dice(2024);
    let deep = |levels: usize| format!("deep = {}{}\n", "[".repeat(levels), "]".repeat(levels));
    for round in 0..400 {
        let mut text = s(DUNE);
        for i in 0..1 + dice.roll(8) {
            text += &dice.statement(i);
        }
        assert!(text.parse::<toml::Value>().is_ok(), "round {}: {:?}", round, text);
        let within = format!("{}{}", text, deep(128));
        assert!(nesting_within(&within), "round {}: {:?}", round, text);
        assert_eq!(parse_info(&within), dune(), "round {}: {:?}", round, text);
        let beyond = format!("{}{}", text, deep(129));
        assert!(!nesting_within(&beyond), "round {}: {:?}", round, text);
        assert_eq!(parse_info(&beyond), None);
    }
}

#[test]
fn keys_in_inline_tables_nest_and_end_with_their_entries() {
    let (a, b) = (".a".repeat(100), ".b".repeat(100));
    let text = format!("{}x = {{ a{} = 1, b{} = [ {{ c.d = 2 }}, {{ c.d = 3 }} ] }}\n", DUNE, a, b);
    assert!(nesting_within(&text));
    assert_eq!(parse_info(&text), dune());
    let text = format!("{}x = {{ a{} = 1 }}\n", DUNE, ".a".repeat(127));
    assert!(nesting_within(&text));
    assert_eq!(parse_info(&text), dune());
    let text = format!("{}x = {{ a{} = 1 }}\n", DUNE, ".a".repeat(128));
    assert!(!nesting_within(&text));
    let text = format!("{}x = [ {{ a = 1 }}, {{ a{} = 1 }} ]\n", DUNE, ".a".repeat(127));
    assert!(!nesting_within(&text));
    let text = format!("{}x = {{ a = [1.5, 2.5], b{} = 1 }}\n", DUNE, ".b".repeat(128));
    assert!(!nesting_within(&text));
}
