use dsh_tools::args::{first_nonempty, read_args, read_list};
use dsh_tools::num::{decimal, hexadecimal, read_i64, read_u16, read_u64, read_uint};
use dsh_tools::order::{order_by_text, order_falling};
use dsh_tools::path::{name_of, path_under};
use dsh_tools::table::{count_texts, group_in, Group};
use dsh_tools::text::{
    byte_count, cut, first_chars, head, joined, lines_of, pieces, replaced, second, stripped_end,
    stripped_start, trimmed, without_prefixes, without_suffixes, words_of,
};

fn tx_all(v: &[&str]) -> Vec<String> {
    v.iter().map(|s| s.to_string()).collect()
}

#[test]
fn texts_are_taken_apart() {
    assert_eq!(pieces("a,b,,c", ","), tx_all(&["a", "b", "", "c"]));
    assert_eq!(pieces("", ","), tx_all(&[""]));
    assert_eq!(cut("k=v=w", "="), Some(("k".to_string(), "v=w".to_string())));
    assert_eq!(cut("kv", "="), None);
    assert_eq!(head("a b", " "), "a");
    assert_eq!(second("a:b:c", ":"), Some("b".to_string()));
    assert_eq!(second("a", ":"), None);
    assert_eq!(lines_of("a\r\nb\n\nc"), tx_all(&["a", "b", "", "c"]));
    assert_eq!(lines_of("a\n"), tx_all(&["a"]));
    assert!(lines_of("").is_empty());
    assert_eq!(words_of("  a \t b\u{3000}c "), tx_all(&["a", "b", "c"]));
    assert_eq!(trimmed(" \u{a0}x y\n"), "x y");
    assert_eq!(stripped_start("^~1.2", "^~"), "1.2");
    assert_eq!(stripped_end("12..", "."), "12");
    assert_eq!(without_prefixes("http://http://x", "http://"), "x");
    assert_eq!(without_suffixes("x.git.git", ".git"), "x");
    assert_eq!(first_chars("中文字", 2), "中文");
    assert_eq!(byte_count("中a"), 4);
    assert_eq!(joined(&tx_all(&["a", "b"]), ", "), "a, b");
    assert_eq!(replaced("a-b-c", "-", "::"), "a::b::c");
}

#[test]
fn lines_and_pieces_agree_with_std() {
    for t in ["", "a", "a\n", "\n", "a\r\n\r\nb\r", "x\ny\nz", "a\rb"] {
        let std_lines: Vec<String> = t.lines().map(|l| l.to_string()).collect();
        assert_eq!(lines_of(t), std_lines);
        let std_words: Vec<String> = t.split_whitespace().map(|l| l.to_string()).collect();
        assert_eq!(words_of(t), std_words);
        let std_pieces: Vec<String> = t.split('\n').map(|l| l.to_string()).collect();
        assert_eq!(pieces(t, "\n"), std_pieces);
        assert_eq!(trimmed(t), t.trim());
    }
}

#[test]
fn numbers_are_written_and_read() {
    assert_eq!(decimal(0), "0");
    assert_eq!(decimal(u64::MAX), "18446744073709551615");
    assert_eq!(hexadecimal(0x1a2f), "1a2f");
    assert_eq!(read_u64("+17"), Some(17));
    assert_eq!(read_u64("18446744073709551616"), None);
    assert_eq!(read_u64(""), None);
    assert_eq!(read_u64("-1"), None);
    assert_eq!(read_u16("65535"), Some(65535));
    assert_eq!(read_u16("65536"), None);
    assert_eq!(read_i64("-9223372036854775808"), Some(i64::MIN));
    assert_eq!(read_i64("9223372036854775808"), None);
    assert_eq!(read_uint("fF", true, 1000), Some(255));
    assert_eq!(read_uint("g", true, 1000), None);
    for n in [0u64, 9, 10, 4096, 123456789] {
        assert_eq!(read_u64(&decimal(n)), Some(n));
    }
}

#[test]
fn sorting_is_stable() {
    assert_eq!(order_falling(&vec![1, 3, 2, 3]), vec![1, 3, 2, 0]);
    assert_eq!(order_by_text(&tx_all(&["b", "a", "b", "ab"]), false), vec![1, 3, 0, 2]);
    assert_eq!(order_by_text(&tx_all(&["b", "a", "b"]), true), vec![0, 2, 1]);
}

#[test]
fn tables_stand_in_the_order_of_their_keys() {
    let c = count_texts(&tx_all(&["b", "a", "b"]));
    let got: Vec<(String, u64)> = c.iter().map(|x| (x.key.clone(), x.count)).collect();
    assert_eq!(got, vec![("a".to_string(), 1), ("b".to_string(), 2)]);
    let mut g: Vec<Group> = Vec::new();
    group_in(&mut g, "m", tx_all(&["x"]));
    group_in(&mut g, "c", vec![]);
    group_in(&mut g, "m", tx_all(&["y"]));
    assert_eq!(g.len(), 2);
    assert_eq!(g[0].key, "c");
    assert_eq!(g[1].items, tx_all(&["x", "y"]));
}

#[test]
fn arguments_are_options_and_words() {
    let a = read_args(&tx_all(&["--to", "i9", "x", "-q", "--to", "mbp", "y", "--to"]), &["--to"]);
    assert_eq!(a.value("--to"), Some("mbp".to_string()));
    assert_eq!(a.value("--from"), None);
    assert_eq!(a.words, tx_all(&["x", "-q", "y"]));
    assert_eq!(a.positionals(), tx_all(&["x", "y"]));
    assert_eq!(a.number_or("--to", 4), 4);
    assert!(a.has("-q"));
    assert_eq!(a.last_word(&["x", "y"]), Some("y".to_string()));
    assert_eq!(first_nonempty(&tx_all(&["", "z"])), Some("z".to_string()));
    assert_eq!(read_list(" a, ,b,"), tx_all(&["a", "b"]));
}

#[test]
fn paths_are_joined_and_named() {
    assert_eq!(path_under("/a", "b"), "/a/b");
    assert_eq!(path_under("/a/", "b"), "/a/b");
    assert_eq!(path_under("/a", "/b"), "/b");
    assert_eq!(path_under("", "b"), "b");
    assert_eq!(name_of("/x/repo/"), "repo");
    assert_eq!(name_of("/x/repo/."), "repo");
    assert_eq!(name_of("/x/.."), "");
    assert_eq!(name_of("."), "");
    assert_eq!(name_of("/"), "");
}

#[test]
fn names_agree_with_std() {
    for p in ["/usr/bin/", "tmp/foo.txt", "foo.txt/.", "foo.txt/.//", "foo.txt/..", "/", ".", "..", "a//b", "./x"] {
        let std_name = std::path::Path::new(p)
            .file_name()
            .map(|s| s.to_string_lossy().to_string())
            .unwrap_or_default();
        assert_eq!(name_of(p), std_name);
    }
}
