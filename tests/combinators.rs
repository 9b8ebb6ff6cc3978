use pear_core::collection::Collection;
use pear_core::combinators::{
    collect, collect_some, delimited_collect, last_of_many, prefixed_series, series, surrounded,
    trailing_series, try_collect,
};
use pear_core::input::{Cursor, Input, ParserInfo};
use pear_core::parser::{TokenSet, Digit, Terminated};
use std::collections::{BTreeMap, HashMap};

fn cursor(s: &str) -> Cursor<char> {
    Cursor::new(s.chars().collect())
}

fn letters() -> TokenSet<char> {
    TokenSet::new(('a'..='z').collect())
}

#[test]
fn rewind_restores_position() {
    let mut c = cursor("abc");
    let before_peek = c.peek();
    let cp = c.mark(&ParserInfo { name: "test", raw: false });
    c.advance();
    c.advance();
    assert_eq!(c.peek(), Some('c'));
    c.rewind_to(&cp);
    assert_eq!(c.position(), 0);
    assert_eq!(c.peek(), before_peek);
    assert!(!c.eof());
    let again: Vec<char> = collect(&mut c, &letters()).unwrap();
    assert_eq!(again, vec!['a', 'b', 'c']);
}

#[test]
fn eat_consumes_only_on_match() {
    let mut c = cursor("ab");
    assert!(c.eat('b').is_err());
    assert_eq!(c.position(), 0);
    assert_eq!(c.eat('a'), Ok('a'));
    assert_eq!(c.position(), 1);
}

#[test]
fn collect_on_empty_input_is_empty() {
    let mut c = cursor("");
    let r: Vec<u32> = collect(&mut c, &Digit).unwrap();
    assert!(r.is_empty());
}

#[test]
fn collect_some_on_empty_input_fails() {
    let mut c = cursor("");
    let r: Result<Vec<u32>, _> = collect_some(&mut c, &Digit);
    assert!(r.is_err());
}

#[test]
fn collect_reads_to_end() {
    let mut c = cursor("4711");
    let r: Vec<u32> = collect(&mut c, &Digit).unwrap();
    assert_eq!(r, vec![4, 7, 1, 1]);
    assert!(c.eof());
}

#[test]
fn collect_fails_on_bad_item() {
    let mut c = cursor("12x3");
    let r: Result<Vec<u32>, _> = collect(&mut c, &Digit);
    assert_eq!(r.unwrap_err().pos, 2);
}

#[test]
fn collect_some_reads_to_end() {
    let mut c = cursor("90");
    let r: Vec<u32> = collect_some(&mut c, &Digit).unwrap();
    assert_eq!(r, vec![9, 0]);
}

#[test]
fn try_collect_stops_before_failure() {
    let mut c = cursor("1,2,x");
    let p = Terminated { item: Digit, sep: ',' };
    let r: Vec<u32> = try_collect(&mut c, &p).unwrap();
    assert_eq!(r, vec![1, 2]);
    assert_eq!(c.position(), 4);
    assert_eq!(c.peek(), Some('x'));
}

#[test]
fn try_collect_on_garbage_is_empty() {
    let mut c = cursor("xyz");
    let r: Vec<u32> = try_collect(&mut c, &Digit).unwrap();
    assert!(r.is_empty());
    assert_eq!(c.position(), 0);
}

#[test]
fn series_rejects_trailing_separator() {
    let mut c = cursor("a,b,");
    let r: Result<Vec<char>, _> = series(&mut c, &letters(), ',');
    assert!(r.is_err());
}

#[test]
fn trailing_series_accepts_trailing_separator() {
    let mut c = cursor("a,b,");
    let r: Vec<char> = trailing_series(&mut c, &letters(), ',').unwrap();
    assert_eq!(r, vec!['a', 'b']);
    assert!(c.eof());
}

#[test]
fn trailing_series_needs_first_item() {
    let mut c = cursor(",a");
    let r: Result<Vec<char>, _> = trailing_series(&mut c, &letters(), ',');
    assert!(r.is_err());
}

#[test]
fn series_stops_without_separator() {
    let mut c = cursor("a,b;c");
    let r: Vec<char> = series(&mut c, &letters(), ',').unwrap();
    assert_eq!(r, vec!['a', 'b']);
    assert_eq!(c.peek(), Some(';'));
}

#[test]
fn delimited_collect_list() {
    let mut c = cursor("[1,2,3]");
    let r: Vec<u32> = delimited_collect(&mut c, '[', &Digit, Some(','), ']').unwrap();
    assert_eq!(r, vec![1, 2, 3]);
    assert!(c.eof());
}

#[test]
fn delimited_collect_empty_list() {
    let mut c = cursor("[]");
    let r: Vec<u32> = delimited_collect(&mut c, '[', &Digit, Some(','), ']').unwrap();
    assert!(r.is_empty());
    assert!(c.eof());
}

#[test]
fn delimited_collect_tolerates_last_separator() {
    let mut c = cursor("[1,2,]");
    let r: Vec<u32> = delimited_collect(&mut c, '[', &Digit, Some(','), ']').unwrap();
    assert_eq!(r, vec![1, 2]);
}

#[test]
fn delimited_collect_without_separator() {
    let mut c = cursor("(123)");
    let r: Vec<u32> = delimited_collect(&mut c, '(', &Digit, None, ')').unwrap();
    assert_eq!(r, vec![1, 2, 3]);
}

#[test]
fn delimited_collect_missing_start_or_end() {
    let mut c = cursor("1,2]");
    let r: Result<Vec<u32>, _> = delimited_collect(&mut c, '[', &Digit, Some(','), ']');
    assert_eq!(r.unwrap_err().pos, 0);
    let mut c = cursor("[1,2");
    let r: Result<Vec<u32>, _> = delimited_collect(&mut c, '[', &Digit, Some(','), ']');
    assert!(r.is_err());
    let mut c = cursor("[1;2]");
    let r: Result<Vec<u32>, _> = delimited_collect(&mut c, '[', &Digit, Some(','), ']');
    assert_eq!(r.unwrap_err().pos, 2);
}

#[test]
fn prefixed_series_without_prefix_is_empty() {
    let mut c = cursor("1,2");
    let r: Vec<u32> = prefixed_series(&mut c, ':', &Digit, ',').unwrap();
    assert!(r.is_empty());
    assert_eq!(c.position(), 0);
}

#[test]
fn prefixed_series_with_prefix() {
    let mut c = cursor(":1,2");
    let r: Vec<u32> = prefixed_series(&mut c, ':', &Digit, ',').unwrap();
    assert_eq!(r, vec![1, 2]);
}

#[test]
fn last_of_many_returns_last() {
    let mut c = cursor("123");
    assert_eq!(last_of_many(&mut c, &Digit), Ok(3));
    let mut c = cursor("1a");
    assert!(last_of_many(&mut c, &Digit).is_err());
}

#[test]
fn surrounded_skips_around() {
    let mut c = cursor("  7 \t");
    let ws = TokenSet::new(vec![' ', '\t']);
    assert_eq!(surrounded(&mut c, &Digit, &ws), Ok(7));
    assert!(c.eof());
    let mut c = cursor(" x ");
    assert!(surrounded(&mut c, &Digit, &ws).is_err());
}

#[test]
fn hash_map_collection_overwrites() {
    let mut m: HashMap<char, u32> = Collection::new();
    m.add(('a', 1));
    m.add(('b', 2));
    m.add(('a', 3));
    assert_eq!(m.len(), 2);
    assert_eq!(m[&'a'], 3);
}

#[test]
fn btree_map_collection_overwrites() {
    let mut m: BTreeMap<u32, char> = Collection::new();
    m.add((2, 'x'));
    m.add((1, 'y'));
    m.add((2, 'z'));
    assert_eq!(m.into_iter().collect::<Vec<_>>(), vec![(1, 'y'), (2, 'z')]);
}

#[test]
fn vec_collection_keeps_order() {
    let mut v: Vec<u32> = Collection::new();
    v.add(3);
    v.add(1);
    assert_eq!(v, vec![3, 1]);
}

#[test]
fn try_collect_stops_where_item_fails() {
    let mut c = cursor("12a3");
    let r: Vec<u32> = try_collect(&mut c, &Digit).unwrap();
    assert_eq!(r, vec![1, 2]);
    assert_eq!(c.peek(), Some('a'));
}

#[test]
fn terminated_consumes_optional_separator() {
    let p = Terminated { item: Digit, sep: ';' };
    let mut c = cursor("1;2");
    let r: Vec<u32> = collect(&mut c, &p).unwrap();
    assert_eq!(r, vec![1, 2]);
    assert!(c.eof());
}

#[test]
fn checkpoint_keeps_info() {
    let c = cursor("x");
    let cp = c.mark(&ParserInfo { name: "probe", raw: true });
    assert_eq!(cp.info().name, "probe");
    assert!(cp.info().raw);
}

#[test]
fn byte_tokens_series() {
    let mut c: Cursor<u8> = Cursor::new(b"x;y;z".to_vec());
    let item = TokenSet::new(vec![b'x', b'y', b'z']);
    let r: Vec<u8> = series(&mut c, &item, b';').unwrap();
    assert_eq!(r, b"xyz".to_vec());
    assert!(c.eof());
}

#[test]
fn item_errors_are_handed_on() {
    let mut c = cursor("a,1");
    let r: Result<Vec<char>, _> = series(&mut c, &letters(), ',');
    assert_eq!(r.unwrap_err().pos, 2);
    let mut c = cursor("1");
    let r: Result<Vec<char>, _> = trailing_series(&mut c, &letters(), ',');
    assert_eq!(r.unwrap_err().pos, 0);
    let mut c = cursor("12x");
    assert_eq!(last_of_many(&mut c, &Digit).unwrap_err().pos, 2);
    let mut c = cursor(" x");
    let ws = TokenSet::new(vec![' ']);
    assert_eq!(surrounded(&mut c, &Digit, &ws).unwrap_err().pos, 1);
}
