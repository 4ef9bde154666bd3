use dense_strings::DenseStrings;

fn strings(xs: &[&str]) -> Vec<String> {
    let mut v: Vec<String> = Vec::new();
    for x in xs {
        v.push(x.to_string());
    }
    v
}

#[test]
fn basic_test() {
    let vec = DenseStrings::new(&strings(&["", "", "", "foo", "bar", "baz", ""]));

    let mut iter = vec.iter();

    assert_eq!(iter.next(), Some(""));
    assert_eq!(iter.next(), Some(""));
    assert_eq!(iter.next(), Some(""));
    assert_eq!(iter.next(), Some("foo"));
    assert_eq!(iter.next(), Some("bar"));
    assert_eq!(iter.next(), Some("baz"));
    assert_eq!(iter.next(), Some(""));
    assert_eq!(iter.next(), None);
}

#[test]
fn seven_element_scenario() {
    let arr = DenseStrings::new(&strings(&["", "", "", "foo", "bar", "baz", ""]));
    assert_eq!(arr.len(), 7);
    assert_eq!(arr.full_str(), "foobarbaz");
    assert_eq!(arr.get(3), Some("foo"));
    assert_eq!(arr.get(7), None);
}

#[test]
fn single_empty_string() {
    let arr = DenseStrings::new(&strings(&[""]));
    assert_eq!(arr.len(), 1);
    assert_eq!(arr.get(0), Some(""));
    assert_eq!(arr.get(1), None);
    assert_eq!(arr.full_str(), "");
}

#[test]
fn many_empty_strings() {
    let arr = DenseStrings::new(&strings(&["a", "", "", "b"]));
    assert_eq!(arr.len(), 4);
    assert_eq!(arr.get(0), Some("a"));
    assert_eq!(arr.get(1), Some(""));
    assert_eq!(arr.get(2), Some(""));
    assert_eq!(arr.get(3), Some("b"));
    assert_eq!(arr.get(4), None);
    assert_eq!(arr.full_str(), "ab");
}

#[test]
fn empty_input_still_holds_one_element() {
    let arr = DenseStrings::new(&Vec::new());
    assert_eq!(arr.len(), 1);
    assert_eq!(arr.get(0), Some(""));
    assert_eq!(arr.get(1), None);
    assert_eq!(arr.full_str(), "");
    assert_eq!(arr.to_strings(), strings(&[""]));
}

#[test]
fn round_trip() {
    let input = strings(&["", "one", "", "two", "three", ""]);
    let arr = DenseStrings::new(&input);
    assert_eq!(arr.to_strings(), input);

    let single = strings(&["lonely"]);
    assert_eq!(DenseStrings::new(&single).to_strings(), single);
}

#[test]
fn round_trip_non_ascii() {
    let input = strings(&["héllo", "", "日本語", "über"]);
    let arr = DenseStrings::new(&input);
    assert_eq!(arr.len(), 4);
    assert_eq!(arr.get(0), Some("héllo"));
    assert_eq!(arr.get(1), Some(""));
    assert_eq!(arr.get(2), Some("日本語"));
    assert_eq!(arr.get(3), Some("über"));
    assert_eq!(arr.full_str(), "héllo日本語über");
    assert_eq!(arr.to_strings(), input);
}

#[test]
fn length_consistency() {
    assert_eq!(DenseStrings::new(&strings(&["x"])).len(), 1);
    assert_eq!(DenseStrings::new(&strings(&["x", "y"])).len(), 2);
    assert_eq!(DenseStrings::new(&strings(&["", "", ""])).len(), 3);
    assert_eq!(DenseStrings::new(&strings(&["a", "bc", "def", ""])).len(), 4);
}

#[test]
fn lookup_totality() {
    let input = strings(&["alpha", "", "beta", "gamma"]);
    let arr = DenseStrings::new(&input);
    for i in 0..input.len() {
        assert_eq!(arr.get(i), Some(input[i].as_str()));
    }
    for i in input.len()..input.len() + 3 {
        assert_eq!(arr.get(i), None);
    }
}

#[test]
fn indexed_access() {
    let arr = DenseStrings::new(&strings(&["alpha", "", "beta"]));
    assert_eq!(arr.index(0), "alpha");
    assert_eq!(arr.index(1), "");
    assert_eq!(arr.index(2), "beta");
}

#[test]
fn concatenation_identity() {
    let input = strings(&["ab", "", "cde", "f"]);
    let arr = DenseStrings::new(&input);
    assert_eq!(arr.full_str(), "abcdef");
    let mut joined = String::new();
    for s in &input {
        joined.push_str(s);
    }
    assert_eq!(arr.full_str(), joined.as_str());
}

#[test]
fn equality_same_input() {
    let input = strings(&["x", "", "yz"]);
    let a = DenseStrings::new(&input);
    let b = DenseStrings::new(&input);
    assert!(a == b);
    assert!(a == a.clone());
}

#[test]
fn inequality_different_counts() {
    let a = DenseStrings::new(&strings(&["ab"]));
    let b = DenseStrings::new(&strings(&["a", "b"]));
    assert!(a != b);
}

#[test]
fn equality_compares_buffer_and_count_only() {
    let a = DenseStrings::new(&strings(&["ab", ""]));
    let b = DenseStrings::new(&strings(&["a", "b"]));
    assert!(a == b);
    assert_eq!(a.get(0), Some("ab"));
    assert_eq!(b.get(0), Some("a"));
}

#[test]
fn iterator_exactness() {
    let input = strings(&["", "foo", "", "bar"]);
    let arr = DenseStrings::new(&input);
    let mut iter = arr.iter();
    let mut produced: usize = 0;
    loop {
        let (lower, upper) = iter.size_hint();
        assert_eq!(lower, arr.len() - produced);
        assert_eq!(upper, Some(lower));
        match iter.next() {
            Some(s) => {
                assert_eq!(Some(s), arr.get(produced));
                produced += 1;
            }
            None => break,
        }
    }
    assert_eq!(produced, arr.len());
    assert_eq!(iter.size_hint(), (0, Some(0)));
    assert_eq!(iter.next(), None);
}

#[test]
fn fresh_iterator_each_call() {
    let arr = DenseStrings::new(&strings(&["a", "b"]));
    let mut first = arr.iter();
    assert_eq!(first.next(), Some("a"));
    let mut second = arr.iter();
    assert_eq!(second.next(), Some("a"));
    assert_eq!(first.next(), Some("b"));
}
