use dial9_viewer::id_map::IdMap;
use dial9_viewer::order::{place_bytes, place_text, same_text, Place};
use dial9_viewer::text_set::insert_text;

#[test]
fn bytes_are_ordered_lexicographically() {
    assert!(matches!(place_bytes(&[], &[]), Place::Same));
    assert!(matches!(place_bytes(&[], &[0]), Place::Before));
    assert!(matches!(place_bytes(&[1], &[0, 9]), Place::After));
    assert!(matches!(place_bytes(&[0, 200], &[0, 200]), Place::Same));
    assert!(matches!(place_bytes(&[0, 127], &[0, 128]), Place::Before));
}

#[test]
fn texts_are_ordered_as_strings_are() {
    let texts = ["", "a", "a::b", "ab", "b", "\u{e9}", "\u{4e2d}", "z"];
    for a in texts {
        for b in texts {
            let place = place_text(a, b);
            assert_eq!(matches!(place, Place::Before), a < b);
            assert_eq!(matches!(place, Place::Same), a == b);
            assert_eq!(same_text(a, b), a == b);
        }
    }
}

#[test]
fn an_id_map_replaces_and_finds() {
    let mut map: IdMap<u8> = IdMap::new();
    assert_eq!(map.len(), 0);
    map.insert(vec![2], 20);
    map.insert(vec![1, 5], 15);
    map.insert(vec![], 1);
    map.insert(vec![2], 21);
    assert_eq!(map.len(), 3);
    assert_eq!(map.get(&[2]), Some(&21));
    assert_eq!(map.get(&[1]), None);
    assert!(map.contains_key(&[]));
    assert!(!map.contains_key(&[1]));
    let ids: Vec<Vec<u8>> = (0..map.len()).map(|i| map.id_at(i).clone()).collect();
    assert_eq!(ids, vec![vec![], vec![1, 5], vec![2]]);
    assert_eq!(*map.value_at(1), 15);
}

#[test]
fn a_text_set_stays_sorted() {
    let mut names: Vec<String> = Vec::new();
    for name in ["m", "z", "a", "m", "b"] {
        insert_text(&mut names, name.to_string());
    }
    assert_eq!(names, vec!["a", "b", "m", "z"]);
}
