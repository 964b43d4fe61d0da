//! Tests for the engine on resolved edits: removals, the offset index, and
//! the laws of the library on concrete values.

use assuo::models::{AssuoPatch, Direction};
use assuo::patch::{apply, PatchError, Patcher};

use rand::{thread_rng, Rng};

fn ins(way: Direction, spot: usize, payload: &str) -> AssuoPatch<Vec<u8>> {
    AssuoPatch::Insert { way, spot, source: payload.as_bytes().to_vec() }
}

fn rem(way: Direction, spot: usize, count: usize) -> AssuoPatch<Vec<u8>> {
    AssuoPatch::Remove { way, spot, count }
}

fn run(source: &str, edits: Vec<AssuoPatch<Vec<u8>>>) -> Result<String, PatchError> {
    apply(source.as_bytes().to_vec(), &edits).map(|bytes| String::from_utf8(bytes).unwrap())
}

fn ok(source: &str, edits: Vec<AssuoPatch<Vec<u8>>>) -> String {
    run(source, edits).unwrap()
}

#[test]
fn no_edits_no_change() {
    assert_eq!(apply(vec![], &vec![]), Ok(vec![]));
    assert_eq!(apply(vec![0, 159, 146, 150], &vec![]), Ok(vec![0, 159, 146, 150]));
    assert_eq!(ok("Hello!", vec![]), "Hello!");
}

#[test]
fn single_insert_splices_at_the_spot() {
    assert_eq!(ok("abc", vec![ins(Direction::Pre, 0, "X")]), "Xabc");
    assert_eq!(ok("abc", vec![ins(Direction::Pre, 1, "X")]), "aXbc");
    assert_eq!(ok("abc", vec![ins(Direction::Pre, 2, "X")]), "abXc");
    assert_eq!(ok("abc", vec![ins(Direction::Post, 0, "X")]), "aXbc");
    assert_eq!(ok("abc", vec![ins(Direction::Post, 1, "X")]), "abXc");
    assert_eq!(ok("abc", vec![ins(Direction::Post, 2, "X")]), "abcX");
    assert_eq!(ok("abc", vec![ins(Direction::Post, 2, "")]), "abc");
}

#[test]
fn later_inserts_still_count_from_the_source() {
    assert_eq!(
        ok("abc", vec![ins(Direction::Pre, 0, "12345"), ins(Direction::Pre, 2, "X")]),
        "12345abXc"
    );
    assert_eq!(
        ok("abc", vec![ins(Direction::Post, 2, "12345"), ins(Direction::Post, 0, "X")]),
        "aXbc12345"
    );
}

#[test]
fn post_inserts_at_one_spot_stack() {
    assert_eq!(
        ok("ab", vec![ins(Direction::Post, 0, "1"), ins(Direction::Post, 0, "2")]),
        ok("ab", vec![ins(Direction::Post, 0, "21")])
    );
    assert_eq!(
        ok(
            "ab",
            vec![
                ins(Direction::Post, 0, "1"),
                ins(Direction::Post, 0, "2"),
                ins(Direction::Post, 0, "3")
            ]
        ),
        "a321b"
    );
}

#[test]
fn pre_inserts_at_one_spot_queue() {
    assert_eq!(
        ok("ab", vec![ins(Direction::Pre, 1, "1"), ins(Direction::Pre, 1, "2")]),
        ok("ab", vec![ins(Direction::Pre, 1, "12")])
    );
    assert_eq!(
        ok(
            "ab",
            vec![
                ins(Direction::Pre, 1, "1"),
                ins(Direction::Pre, 1, "2"),
                ins(Direction::Pre, 1, "3")
            ]
        ),
        "a123b"
    );
}

#[test]
fn pre_and_post_inserts_commute() {
    for pre_spot in 0..3 {
        for post_spot in 0..3 {
            let one = ok(
                "abc",
                vec![ins(Direction::Pre, pre_spot, "<<"), ins(Direction::Post, post_spot, ">")],
            );
            let other = ok(
                "abc",
                vec![ins(Direction::Post, post_spot, ">"), ins(Direction::Pre, pre_spot, "<<")],
            );
            assert_eq!(one, other);
        }
    }
    assert_eq!(
        ok("abc", vec![ins(Direction::Pre, 1, "<<"), ins(Direction::Post, 0, ">")]),
        "a><<bc"
    );
}

fn permutations(items: &mut Vec<usize>, from: usize, out: &mut Vec<Vec<usize>>) {
    if from == items.len() {
        out.push(items.clone());
        return;
    }
    for i in from..items.len() {
        items.swap(from, i);
        permutations(items, from + 1, out);
        items.swap(from, i);
    }
}

#[test]
fn inserts_at_different_spots_in_every_order() {
    let letters = ["e", "l", ",", "W", "r", "d"];
    let mut orders = Vec::new();
    permutations(&mut vec![0, 1, 2, 3, 4, 5], 0, &mut orders);
    assert_eq!(orders.len(), 720);
    for order in orders {
        let edits = order.iter().map(|&i| ins(Direction::Post, i, letters[i])).collect();
        assert_eq!(ok("Hlo ol!", edits), "Hello, World!", "{:?}", order);
    }
}

#[test]
fn inserts_on_both_sides_in_every_order() {
    let edits = [
        (Direction::Pre, 0, "1"),
        (Direction::Post, 0, "2"),
        (Direction::Pre, 1, "3"),
        (Direction::Post, 1, "4"),
    ];
    let mut orders = Vec::new();
    permutations(&mut vec![0, 1, 2, 3], 0, &mut orders);
    for order in orders {
        let list = order.iter().map(|&i| ins(edits[i].0, edits[i].1, edits[i].2)).collect();
        assert_eq!(ok("ab", list), "1a23b4", "{:?}", order);
    }
}

/// What a list of insertions gives, put together byte by byte: before each
/// byte the pre payloads at it in list order, after it the post payloads at it
/// with the last of the list first.
fn woven(source: &[u8], edits: &[(Direction, usize, Vec<u8>)]) -> Vec<u8> {
    let mut out = Vec::new();
    for (spot, byte) in source.iter().enumerate() {
        for (way, at, payload) in edits.iter() {
            if *way == Direction::Pre && *at == spot {
                out.extend_from_slice(payload);
            }
        }
        out.push(*byte);
        for (way, at, payload) in edits.iter().rev() {
            if *way == Direction::Post && *at == spot {
                out.extend_from_slice(payload);
            }
        }
    }
    out
}

#[test]
fn inserts_weave_around_the_source() {
    let mut rng = thread_rng();
    for _ in 0..500 {
        let len = rng.gen_range(1..8);
        let source: Vec<u8> = (0..len).map(|i| b'a' + i as u8).collect();
        let count = rng.gen_range(0..10);
        let mut edits = Vec::new();
        for n in 0..count {
            let way = if rng.gen_bool(0.5) { Direction::Pre } else { Direction::Post };
            let spot = rng.gen_range(0..len);
            let size = rng.gen_range(0..4);
            let payload: Vec<u8> = (0..size).map(|i| b'0' + ((n * 3 + i) % 10) as u8).collect();
            edits.push((way, spot, payload));
        }
        let list: Vec<AssuoPatch<Vec<u8>>> = edits
            .iter()
            .map(|(way, spot, payload)| AssuoPatch::Insert {
                way: *way,
                spot: *spot,
                source: payload.clone(),
            })
            .collect();
        assert_eq!(apply(source.clone(), &list), Ok(woven(&source, &edits)), "{:?}", edits);
    }
    assert_eq!(
        woven(b"ab", &[(Direction::Post, 0, b"1".to_vec()), (Direction::Post, 0, b"2".to_vec())]),
        b"a21b".to_vec()
    );
}

#[test]
fn removal_takes_the_bytes_beside_the_spot() {
    assert_eq!(ok("abcdef", vec![rem(Direction::Post, 1, 2)]), "abef");
    assert_eq!(ok("abcdef", vec![rem(Direction::Pre, 4, 2)]), "abef");
    assert_eq!(ok("abcdef", vec![rem(Direction::Post, 3, 2)]), "abcd");
    assert_eq!(ok("abcdef", vec![rem(Direction::Pre, 5, 5)]), "f");
    assert_eq!(ok("abcdef", vec![rem(Direction::Post, 0, 5)]), "a");
    assert_eq!(ok("abcdef", vec![rem(Direction::Pre, 2, 1)]), "acdef");
}

#[test]
fn removal_of_nothing_changes_nothing() {
    assert_eq!(ok("abcdef", vec![rem(Direction::Pre, 0, 0)]), "abcdef");
    assert_eq!(ok("abcdef", vec![rem(Direction::Post, 5, 0)]), "abcdef");
    assert_eq!(
        ok("abcdef", vec![rem(Direction::Post, 2, 0), ins(Direction::Pre, 3, "X")]),
        "abcXdef"
    );
    assert_eq!(
        ok("abcdef", vec![rem(Direction::Pre, 2, 0), ins(Direction::Post, 5, "X")]),
        "abcdefX"
    );
}

#[test]
fn removal_past_either_end_is_refused() {
    assert_eq!(
        run("abcdef", vec![rem(Direction::Post, 5, 1)]),
        Err(PatchError::InvalidRemoveRange)
    );
    assert_eq!(
        run("abcdef", vec![rem(Direction::Post, 3, 3)]),
        Err(PatchError::InvalidRemoveRange)
    );
    assert_eq!(run("abcdef", vec![rem(Direction::Pre, 1, 2)]), Err(PatchError::InvalidRemoveRange));
    assert_eq!(run("abcdef", vec![rem(Direction::Pre, 0, 1)]), Err(PatchError::InvalidRemoveRange));
    assert_eq!(
        run("abcdef", vec![rem(Direction::Post, 0, usize::MAX)]),
        Err(PatchError::InvalidRemoveRange)
    );
    assert_eq!(
        run("abcdef", vec![rem(Direction::Pre, 5, usize::MAX)]),
        Err(PatchError::InvalidRemoveRange)
    );
    assert_eq!(run("abcdef", vec![rem(Direction::Pre, 6, 0)]), Err(PatchError::OutOfBounds));
}

#[test]
fn removal_counts_in_the_buffer_as_it_stands() {
    assert_eq!(
        ok("abc", vec![ins(Direction::Post, 0, "XYZ"), rem(Direction::Post, 0, 5)]),
        "a"
    );
    assert_eq!(
        run("abc", vec![rem(Direction::Post, 0, 1), rem(Direction::Post, 0, 2)]),
        Err(PatchError::InvalidRemoveRange)
    );
}

#[test]
fn removed_spots_still_resolve() {
    for spot in 0..6 {
        for way in [Direction::Pre, Direction::Post] {
            assert!(run("abcdef", vec![rem(Direction::Post, 1, 2), ins(way, spot, "X")]).is_ok());
            assert!(run("abcdef", vec![rem(Direction::Pre, 4, 2), ins(way, spot, "X")]).is_ok());
            assert!(run("abcdef", vec![rem(Direction::Post, 0, 5), ins(way, spot, "X")]).is_ok());
            assert!(run("abcdef", vec![rem(Direction::Pre, 5, 5), ins(way, spot, "X")]).is_ok());
        }
    }
}

#[test]
fn removed_spots_resolve_to_where_the_buffer_closed() {
    let with = |way, spot| {
        ok("abcdef", vec![rem(Direction::Post, 1, 2), ins(way, spot, "X")])
    };
    assert_eq!(ok("abcdef", vec![rem(Direction::Post, 1, 2)]), "abef");
    assert_eq!(with(Direction::Pre, 2), "abXef");
    assert_eq!(with(Direction::Pre, 3), "abXef");
    assert_eq!(with(Direction::Pre, 4), "abXef");
    assert_eq!(with(Direction::Post, 2), "abeXf");
    assert_eq!(with(Direction::Post, 3), "abeXf");
    assert_eq!(with(Direction::Post, 4), "abeXf");
    assert_eq!(with(Direction::Post, 1), "abXef");

    let with = |way, spot| {
        ok("abcdef", vec![rem(Direction::Pre, 4, 2), ins(way, spot, "X")])
    };
    assert_eq!(ok("abcdef", vec![rem(Direction::Pre, 4, 2)]), "abef");
    assert_eq!(with(Direction::Pre, 2), "abXef");
    assert_eq!(with(Direction::Pre, 3), "abXef");
    assert_eq!(with(Direction::Pre, 4), "abXef");
    assert_eq!(with(Direction::Post, 2), "abeXf");
    assert_eq!(with(Direction::Post, 3), "abeXf");
}

#[test]
fn spots_removed_at_the_end_resolve_to_the_last_byte() {
    let with = |way, spot| {
        ok("abcdef", vec![rem(Direction::Post, 3, 2), ins(way, spot, "X")])
    };
    assert_eq!(ok("abcdef", vec![rem(Direction::Post, 3, 2)]), "abcd");
    assert_eq!(with(Direction::Pre, 4), "abcXd");
    assert_eq!(with(Direction::Pre, 5), "abcXd");
    assert_eq!(with(Direction::Pre, 3), "abcXd");
    assert_eq!(with(Direction::Post, 4), "abcdX");
    assert_eq!(with(Direction::Post, 5), "abcdX");
}

#[test]
fn spots_behind_a_removal_keep_their_bytes() {
    assert_eq!(
        ok("abcdef", vec![rem(Direction::Post, 1, 2), ins(Direction::Pre, 4, "X")]),
        "abXef"
    );
    assert_eq!(
        ok("abcdef", vec![rem(Direction::Post, 1, 2), ins(Direction::Post, 5, "X")]),
        "abefX"
    );
    assert_eq!(
        ok("abcdef", vec![rem(Direction::Post, 1, 2), ins(Direction::Pre, 0, "X")]),
        "Xabef"
    );
    assert_eq!(
        ok(
            "abcdef",
            vec![rem(Direction::Pre, 2, 1), rem(Direction::Post, 3, 1), ins(Direction::Pre, 5, "X")]
        ),
        "acdXf"
    );
}

#[test]
fn inserted_bytes_can_be_removed_but_not_addressed() {
    assert_eq!(
        ok("abcdef", vec![ins(Direction::Post, 0, "XY"), rem(Direction::Post, 0, 3)]),
        "acdef"
    );
    assert_eq!(
        ok(
            "abcdef",
            vec![
                ins(Direction::Post, 0, "XY"),
                rem(Direction::Post, 0, 3),
                ins(Direction::Pre, 1, "Z")
            ]
        ),
        "aZcdef"
    );
    assert_eq!(
        ok(
            "abcdef",
            vec![
                ins(Direction::Post, 0, "XY"),
                rem(Direction::Post, 0, 3),
                ins(Direction::Post, 1, "Z")
            ]
        ),
        "acZdef"
    );
}

#[test]
fn a_removal_can_be_anchored_at_a_removed_spot() {
    assert_eq!(
        ok("abcdef", vec![rem(Direction::Post, 1, 2), rem(Direction::Post, 2, 1)]),
        "abe"
    );
    assert_eq!(
        ok("abcdef", vec![rem(Direction::Post, 1, 2), rem(Direction::Pre, 2, 1)]),
        "aef"
    );
    assert_eq!(
        ok(
            "abcdef",
            vec![rem(Direction::Post, 1, 2), rem(Direction::Post, 2, 1), ins(Direction::Post, 5, "X")]
        ),
        "abeX"
    );
    assert_eq!(
        ok("abcdef", vec![rem(Direction::Pre, 4, 2), rem(Direction::Pre, 3, 2)]),
        "ef"
    );
}

#[test]
fn the_first_edit_that_fails_decides() {
    assert_eq!(
        run("abc", vec![ins(Direction::Pre, 9, "x"), rem(Direction::Post, 0, 99)]),
        Err(PatchError::OutOfBounds)
    );
    assert_eq!(
        run("abc", vec![rem(Direction::Post, 0, 99), ins(Direction::Pre, 9, "x")]),
        Err(PatchError::InvalidRemoveRange)
    );
    assert_eq!(
        run("abc", vec![ins(Direction::Pre, 0, "x"), ins(Direction::Pre, 3, "x")]),
        Err(PatchError::OutOfBounds)
    );
    assert_eq!(run("", vec![rem(Direction::Pre, 0, 0)]), Err(PatchError::OutOfBounds));
}

#[test]
fn inserts_grow_the_buffer_by_their_payloads() {
    let out = apply(
        vec![1, 2, 3],
        &vec![
            AssuoPatch::Insert { way: Direction::Pre, spot: 0, source: vec![9; 4] },
            AssuoPatch::Insert { way: Direction::Post, spot: 2, source: vec![8; 7] },
            AssuoPatch::Insert { way: Direction::Post, spot: 1, source: vec![] },
        ],
    )
    .unwrap();
    assert_eq!(out.len(), 3 + 4 + 7);
    assert_eq!(out, vec![9, 9, 9, 9, 1, 2, 3, 8, 8, 8, 8, 8, 8, 8]);
}

#[test]
fn patcher_answers_where_a_spot_is() {
    let mut patcher = Patcher::new(b"abcdef".to_vec());
    assert_eq!(patcher.len(), 6);
    for spot in 0..6 {
        assert_eq!(patcher.get_index(spot), Some(spot));
    }
    assert_eq!(patcher.get_index(6), None);
    assert_eq!(patcher.get_index(usize::MAX), None);

    assert_eq!(patcher.apply_edit(&ins(Direction::Pre, 2, "XYZ")), Ok(()));
    assert_eq!(patcher.len(), 9);
    assert_eq!(patcher.get_index(1), Some(1));
    assert_eq!(patcher.get_index(2), Some(5));
    assert_eq!(patcher.get_index(5), Some(8));
    assert_eq!(patcher.get_index(6), None);

    assert_eq!(patcher.apply_edit(&rem(Direction::Post, 0, 6)), Ok(()));
    assert_eq!(patcher.len(), 3);
    assert_eq!(patcher.get_index(0), Some(0));
    for spot in 1..5 {
        assert_eq!(patcher.get_index(spot), Some(1));
    }
    assert_eq!(patcher.get_index(5), Some(2));
    assert_eq!(patcher.into_bytes(), b"aef".to_vec());
}

#[test]
fn patcher_is_unchanged_by_an_edit_that_fails() {
    let mut patcher = Patcher::new(b"abc".to_vec());
    assert_eq!(patcher.apply_edit(&ins(Direction::Post, 1, "X")), Ok(()));
    assert_eq!(patcher.apply_edit(&ins(Direction::Post, 3, "Y")), Err(PatchError::OutOfBounds));
    assert_eq!(
        patcher.apply_edit(&rem(Direction::Post, 1, 3)),
        Err(PatchError::InvalidRemoveRange)
    );
    assert_eq!(patcher.apply_edit(&rem(Direction::Pre, 1, 2)), Err(PatchError::InvalidRemoveRange));
    assert_eq!(patcher.len(), 4);
    assert_eq!(patcher.get_index(2), Some(3));
    assert_eq!(patcher.apply_edit(&rem(Direction::Post, 1, 2)), Ok(()));
    assert_eq!(patcher.into_bytes(), b"ab".to_vec());
}
