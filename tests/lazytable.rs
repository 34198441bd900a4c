use lazytable::{distribute, flying, max_merge, split, Table, TableConfig};

fn owned(v: &[&str]) -> Vec<String> {
    v.iter().map(|s| s.to_string()).collect()
}

#[test]
fn it_works() {
    let mut table = Table::default();
    table.set_title(owned(&["who", "what"]));
    table.add_rows(&mut vec![owned(&["a", "b"]), owned(&["c", "d"])]);
    table.add_row(owned(&["foobar", "foobar2000"]));
    assert_eq!(table.dimensions(), vec![6, 10]);
    let out = table.render();
    let should = "\
# who    | what       #
#--------+------------#
# a      | b          #
# c      | d          #
# foobar | foobar2000 #
"
    .replace("#", "");
    assert_eq!(out, should);
}

#[test]
fn test_max_merge() {
    let l = vec![1, 2, 3];
    let r = vec![2, 0, 3, 4];
    assert_eq!(max_merge(&l, &r), vec![2, 2, 3, 4]);
    let l = vec![];
    let r = vec![2, 0, 3, 4];
    assert_eq!(max_merge(&l, &r), r);
}

#[test]
fn test_split() {
    let cell = "foobar2000 foo";
    assert_eq!(split(cell, 12), owned(&["foobar2000", "foo"]));
    let cell = "foobar2000    foo";
    assert_eq!(split(cell, 12), owned(&["foobar2000", "foo"]));
    let cell = "foobar2000    foobar2000";
    assert_eq!(split(cell, 12), owned(&["foobar2000", "foobar2000"]));
    let cell = "foobar2000     foobar2000";
    assert_eq!(split(cell, 12), owned(&["foobar2000", "", "foobar2000"]));
}

#[test]
fn test_distribute() {
    let dims = vec![10, 5, 20, 15];
    let dis = distribute(&dims, 40, 0);
    assert_eq!(dis, vec![10, 5, 11, 11]);
}

#[test]
fn test_wrapping() {
    let mut table = Table::with_width(20);
    table.add_row(owned(&["da", "foobar foobar", "bar"]));
    table.add_row(owned(&["da", "foobar!", "bar"]));
    let out = table.render();
    let should = "\
# da | foobar  | bar #
#    | foobar  |     #
# da | foobar! | bar #
"
    .replace("#", "");
    assert_eq!(out, should);
}

#[test]
fn distribute_keeps_widths_that_fit() {
    assert_eq!(distribute(&[3, 4], 20, 1), vec![3, 4]);
    // exactly the sum plus padding and separators
    assert_eq!(distribute(&[3, 4, 5], 12 + 3 * 2 + 2, 1), vec![3, 4, 5]);
    assert_eq!(distribute(&[], 10, 1), Vec::<usize>::new());
}

#[test]
fn distribute_never_exceeds_natural_widths() {
    let dims = vec![50, 60, 70, 0];
    let out = distribute(&dims, 30, 1);
    assert_eq!(out.len(), dims.len());
    for (o, d) in out.iter().zip(dims.iter()) {
        assert!(o <= d);
    }
    assert_eq!(out, vec![6, 6, 7, 0]);
}

#[test]
fn distribute_ties_keep_column_order() {
    assert_eq!(distribute(&[9, 9, 9], 11, 0), vec![3, 3, 3]);
    assert_eq!(distribute(&[9, 9], 12, 0), vec![5, 6]);
}

#[test]
fn distribute_clamps_when_width_too_small() {
    assert_eq!(distribute(&[10, 10], 3, 1), vec![0, 0]);
    assert_eq!(distribute(&[10], 0, 0), vec![0]);
}

#[test]
fn flying_fair_share() {
    assert_eq!(flying(10, 2, 20, 1), 7);
    assert_eq!(flying(3, 2, 20, 1), 3);
    assert_eq!(flying(5, 2, 3, 1), 0);
    assert_eq!(flying(5, 1, usize::MAX, usize::MAX), 0);
}

#[test]
fn max_merge_longer_left() {
    assert_eq!(max_merge(&[5, 1, 7], &[2, 9]), vec![5, 9, 7]);
    assert_eq!(max_merge(&[], &[]), Vec::<usize>::new());
}

#[test]
fn split_short_text_is_one_trimmed_line() {
    assert_eq!(split("  ab  ", 10), owned(&["ab"]));
    assert_eq!(split("\tab\n", 4), owned(&["ab"]));
    assert_eq!(split("a\tb", 10), owned(&["a\tb"]));
}

#[test]
fn split_empty_or_zero_width() {
    assert_eq!(split("", 5), Vec::<String>::new());
    assert_eq!(split("abc", 0), Vec::<String>::new());
}

#[test]
fn split_hard_breaks_and_keeps_words() {
    assert_eq!(split("abcdefgh", 3), owned(&["abc", "def", "gh"]));
    let lines = split("hello world foo", 5);
    assert_eq!(lines, owned(&["hello", "", "world", "foo"]));
    let visible: String = lines.concat().chars().filter(|c| !c.is_whitespace()).collect();
    assert_eq!(visible, "helloworldfoo");
}

#[test]
fn split_counts_characters() {
    assert_eq!(split("äöü äöü", 4), owned(&["äöü", "äöü"]));
}

#[test]
fn render_custom_borders() {
    let config = TableConfig { width: 30, padding: 0, border: ("#", "=", "*") };
    let mut table = Table::new(config);
    table.set_title(owned(&["x", "yy"]));
    table.add_row(owned(&["abc", "d"]));
    assert_eq!(table.dimensions(), vec![3, 2]);
    assert_eq!(table.fmt_seperator(&[3, 2]), "===*==");
    assert_eq!(table.render(), "x  #yy\n===*==\nabc#d \n");
}

#[test]
fn render_rows_are_rectangular() {
    let mut table = Table::with_width(20);
    table.add_row(owned(&["a", "b"]));
    table.add_row(owned(&["c"]));
    table.add_row(owned(&[""]));
    assert_eq!(table.render(), " a | b \n c |   \n   |   \n");
    let lines = table.fmt_row(&owned(&["aa bb cc", "x"]), &[2, 1]);
    assert_eq!(lines, owned(&[" aa | x ", "    |   ", " bb |   ", "    |   ", " cc |   "]));
    let lines = table.fmt_row(&owned(&["aa bb cc", "x"]), &[3, 1]);
    assert_eq!(lines, owned(&[" aa  | x ", " bb  |   ", " cc  |   "]));
    assert!(lines.iter().all(|l| l.len() == lines[0].len()));
}

#[test]
fn render_degenerate_width() {
    let mut table = Table::with_width(3);
    table.add_row(owned(&["abc", "def"]));
    assert_eq!(table.dimensions(), vec![0, 0]);
    assert_eq!(table.render(), "  |  \n");
}

#[test]
fn render_empty_table() {
    let table = Table::default();
    assert_eq!(table.render(), "");
    assert_eq!(table.dimensions(), Vec::<usize>::new());
}

#[test]
fn add_rows_moves_rows() {
    let mut table = Table::with_width(10);
    let mut rows = vec![owned(&["a"]), owned(&["b"])];
    table.add_rows(&mut rows);
    assert!(rows.is_empty());
    assert_eq!(table.rows.len(), 2);
    assert_eq!(table.render(), " a \n b \n");
}
