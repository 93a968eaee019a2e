use passay_rs::dictionary::ternary_tree::TernaryTreeDictionary;
use passay_rs::dictionary::word_lists::order::{Comparator, WordOrder};
use passay_rs::dictionary::word_lists::sort::{
    ArraySorter, BubbleSort, BubbleSortOptimized, InsertionSort, QuickSort, SelectionSort,
    SliceSort,
};
use passay_rs::dictionary::word_lists::word_list_dictionary::WordListDictionary;
use passay_rs::dictionary::word_lists::{
    binary_search, create_from_read, create_from_reads, read_words, ArrayWordList, WordLists,
};
use passay_rs::dictionary::{Dictionary, DictionaryBuilder};
use rand::seq::SliceRandom;

const FALSE_SEARCH: &str = "not-found-in-the-dictionary";
const ANIMALS: &[&str] = &[
    "Aardvark",
    "Baboon",
    "Chinchilla",
    "Donkey",
    "Emu",
    "Flamingo",
    "Gorilla",
    "Hippopotamus",
    "Iguana",
    "Jackal",
    "Kangaroo",
    "Lemming",
    "Marmot",
    "Narwhal",
    "Ox",
    "Platypus",
    "Quail",
    "Rhinoceros",
    "Skunk",
    "Tortoise",
    "Uakari",
    "Vulture",
    "Walrus",
    "Xantus",
    "Yak",
    "Zebra",
];
const ANIMAL_SEARCH_CS: &str = "Kangaroo";
const ANIMAL_SEARCH_CI: &str = "kangaroo";

/// Words in no particular order, one per line.
const UNSORTED: &str = "TrustedBSD\nzlib\nISBN\nkernel\nFreeBSD\njail\nports\nPostScript\nbsdlabel\nACPI\nYarrow\nloader\nmbuf\nNetBSD\nOpenBSD\nsysctl\nvnode\nXorg\ndevfs\ngeom\ninetd\numass\nCardBus\nDTrace\nufs\npf\nipfw\nmake\nrc\ncron\n";

/// The same words in the order of their bytes.
const SORTED: &str = "ACPI\nCardBus\nDTrace\nFreeBSD\nISBN\nNetBSD\nOpenBSD\nPostScript\nTrustedBSD\nXorg\nYarrow\nbsdlabel\ncron\ndevfs\ngeom\ninetd\nipfw\njail\nkernel\nloader\nmake\nmbuf\npf\nports\nrc\nsysctl\nufs\numass\nvnode\nzlib\n";

/// Words with a few more, among them `manipular` and `z`.
const LARGER: &str = "manipular\nz\nirresolute\nAardvark\nzymurgy\nmanipulate\nbrujeria\nZ\nirresponsible\n";

fn words(list: &[&str]) -> Vec<String> {
    list.iter().map(|w| w.to_string()).collect()
}

fn create_dictionary() -> (TernaryTreeDictionary, TernaryTreeDictionary) {
    let case_sensitive = create_from_read(LARGER, true, Some(SliceSort));
    let case_sensitive = TernaryTreeDictionary::with_wordlist(case_sensitive);

    let case_insensitive = create_from_read(LARGER, false, Some(SliceSort));
    let case_insensitive = TernaryTreeDictionary::with_wordlist(case_insensitive);
    (case_sensitive, case_insensitive)
}

fn create_words() -> ArrayWordList {
    create_from_read(LARGER, false, Some(SliceSort))
}

#[test]
fn mod_search() {
    let (case_sensitive, case_insensitive) = create_dictionary();
    assert!(case_sensitive.search("manipular"));
    assert!(!case_sensitive.search(FALSE_SEARCH));
    assert!(case_sensitive.search("z"));
    assert!(case_insensitive.search("manipular"));
    let x = "manipular".to_uppercase();
    assert!(case_insensitive.search(&x));
    assert!(!case_insensitive.search(FALSE_SEARCH));
    assert!(case_insensitive.search("z"));
}

#[test]
fn mod_search_all() {
    let (case_sensitive, case_insensitive) = create_dictionary();
    let words = create_words();
    for i in 0..words.len() {
        let word = words.get(i);
        assert!(case_sensitive.search(word));
        assert!(case_insensitive.search(word));
        assert!(case_insensitive.search(&word.to_lowercase()));
        assert!(case_insensitive.search(&word.to_uppercase()));
    }
}

#[test]
fn partial_search() {}

#[test]
fn near_search() {}

fn test_sort(sorter: impl ArraySorter + Clone) {
    let awl = ArrayWordList::with_sorter(get_animals(), true, Some(sorter.clone()));
    let sort_cs = TernaryTreeDictionary::with_wordlist(awl);
    assert!(sort_cs.search(ANIMAL_SEARCH_CS));
    assert!(!sort_cs.search(ANIMAL_SEARCH_CI));

    let awl = ArrayWordList::with_sorter(get_animals(), false, Some(sorter));
    let sort_ci = TernaryTreeDictionary::with_wordlist(awl);
    assert!(sort_ci.search(ANIMAL_SEARCH_CS));
    assert!(sort_ci.search(ANIMAL_SEARCH_CI));
}

fn get_animals() -> Vec<String> {
    let mut animals: Vec<String> = ANIMALS.iter().map(|a| a.to_string()).collect();
    animals.shuffle(&mut rand::rng());
    animals
}

#[test]
fn bubble_sort() {
    test_sort(BubbleSortOptimized);
}

#[test]
fn selection_sort() {
    test_sort(SelectionSort);
}

#[test]
fn insertion_sort() {
    test_sort(InsertionSort);
}

#[test]
fn quick_sort() {
    test_sort(QuickSort);
}

fn case_sensitive_word_list() -> ArrayWordList {
    create_from_read(UNSORTED, true, Some(SliceSort))
}

fn case_insensitive_word_list() -> ArrayWordList {
    create_from_read(UNSORTED, false, Some(SliceSort))
}

fn one_word() -> ArrayWordList {
    ArrayWordList::with_words(["a"].map(String::from).to_vec())
}

fn two_words() -> ArrayWordList {
    ArrayWordList::with_words(["a", "b"].map(String::from).to_vec())
}

fn three_words() -> ArrayWordList {
    ArrayWordList::with_words(["a", "b", "c"].map(String::from).to_vec())
}

fn create_search_data() -> [(ArrayWordList, &'static str, Option<usize>); 13] {
    [
        (one_word(), "a", Some(0)),
        (one_word(), "b", None),
        (two_words(), "a", Some(0)),
        (two_words(), "b", Some(1)),
        (two_words(), "c", None),
        (three_words(), "a", Some(0)),
        (three_words(), "b", Some(1)),
        (three_words(), "c", Some(2)),
        (three_words(), "d", None),
        (case_sensitive_word_list(), "ISBN", Some(4)),
        (case_sensitive_word_list(), "guacamole", None),
        (case_insensitive_word_list(), "kernel", Some(12)),
        (case_insensitive_word_list(), "brujo", None),
    ]
}

#[test]
fn test_binary_search() {
    let search_data = create_search_data();
    for (wl, word, i) in search_data {
        assert_eq!(i, binary_search(&wl, word));
    }
}

#[test]
fn mod_test_binary_search() {
    let three = three_words();
    assert_eq!(Some(1), binary_search(&three, "b"));
    assert_eq!(None, binary_search(&three, "d"));
}

#[test]
fn mod_create_from_reader() {
    let words = [
        " leading whitespace",
        " surrounding whitespace ",
        "bar",
        "foo",
        "trailing whitespace ",
    ];

    let mut all_string = String::new();
    for word in words.iter() {
        all_string.push_str(word);
        all_string.push('\n');
    }
    let word_list = create_from_read(all_string.as_str(), true, Some(SliceSort));
    assert_eq!(words.len(), word_list.len());
    for i in 0..word_list.len() {
        assert_eq!(words[i], word_list.get(i));
    }
}

#[test]
fn mod_test_words_from_read() {
    let sorted_file = "all\nbest\ngood\nwell\n";
    let words = read_words(sorted_file);
    let good = "good".to_string();
    assert!(words.contains(&good));
}

fn read_sorted_lines() -> Vec<String> {
    SORTED.lines().map(|l| l.to_string()).collect()
}

fn read_lines() -> Vec<String> {
    UNSORTED.lines().map(|l| l.to_string()).collect()
}

fn do_sort(array: &mut Vec<String>, sort: impl ArraySorter) {
    sort.sort(&mut array[..]);
}

#[test]
fn bubble_sort_test() {
    let sorted_array = read_sorted_lines();
    let mut array = read_lines();
    assert!(
        &sorted_array[..].ne(&array[..]),
        "sorted lines and lines should not be equal!"
    );
    do_sort(&mut array, BubbleSortOptimized);
    assert_eq!(&sorted_array[..], &array[..]);
}

#[test]
fn plain_bubble_sort_test() {
    let sorted_array = read_sorted_lines();
    let mut array = read_lines();
    do_sort(&mut array, BubbleSort);
    assert_eq!(&sorted_array[..], &array[..]);
}

#[test]
fn slice_sort_test() {
    let sorted_array = read_sorted_lines();
    let mut array = read_lines();
    assert!(
        &sorted_array[..].ne(&array[..]),
        "sorted lines and lines should not be equal!"
    );
    do_sort(&mut array, SliceSort);
    assert_eq!(&sorted_array[..], &array[..]);
}

#[test]
fn insertion_sort_test() {
    let sorted_array = read_sorted_lines();
    let mut array = read_lines();
    assert!(
        &sorted_array[..].ne(&array[..]),
        "sorted lines and lines should not be equal!"
    );
    do_sort(&mut array, InsertionSort);
    assert_eq!(&sorted_array[..], &array[..]);
}

#[test]
fn quick_sort_test() {
    let sorted_array = read_sorted_lines();
    let mut array = read_lines();
    assert!(
        &sorted_array[..].ne(&array[..]),
        "sorted lines and lines should not be equal!"
    );
    do_sort(&mut array, QuickSort);
    assert_eq!(&sorted_array[..], &array[..]);
}

#[test]
fn selection_test() {
    let sorted_array = read_sorted_lines();
    let mut array = read_lines();
    assert!(
        &sorted_array[..].ne(&array[..]),
        "sorted lines and lines should not be equal!"
    );
    do_sort(&mut array, SelectionSort);
    assert_eq!(&sorted_array[..], &array[..]);
}

fn create_list_dictionary(case_sensitive: bool) -> impl Dictionary {
    let list = create_from_read(UNSORTED, case_sensitive, Some(SliceSort));
    WordListDictionary::new(list)
}

#[test]
fn word_list_dictionary_search() {
    let case_sensitive = create_list_dictionary(true);
    let case_insensitive = create_list_dictionary(false);

    assert!(case_sensitive.search("TrustedBSD"));
    assert!(!case_sensitive.search(FALSE_SEARCH));

    assert!(case_insensitive.search("TrustedBSD"));
    assert!(!case_insensitive.search(FALSE_SEARCH));
}

#[test]
fn word_list_dictionary_search_all() {
    let case_sensitive = create_list_dictionary(true);
    let case_insensitive = create_list_dictionary(false);
    let words = create_from_read(SORTED, true, Some(SliceSort));
    for i in 0..words.len() {
        let word = words.get(i);
        assert!(case_sensitive.search(word));
        assert!(case_insensitive.search(word));
        assert!(case_insensitive.search(&word.to_lowercase()));
        assert!(case_insensitive.search(&word.to_uppercase()));
    }
}

#[test]
fn construct() {
    let words = ["a", "b", "", "c"].map(String::from).to_vec();
    let _word_list = ArrayWordList::new(words, true);
}

#[test]
fn words_with_space() {
    let mut vec_with_space = [" Man", " cadet", "!@#$%^&*", "password", "inner ", "outer "];
    vec_with_space.sort();
    let vec_with_space = vec_with_space.map(String::from).to_vec();
    let vec_len = vec_with_space.len();
    let first_in_vec = vec_with_space[0].to_owned();
    let last_in_vec = vec_with_space.last().unwrap().to_owned();

    let wl = ArrayWordList::new(vec_with_space, true);
    assert_eq!(vec_len, wl.len());
    assert_eq!(&first_in_vec, wl.get(0));
    assert_eq!(&last_in_vec, wl.get(wl.len() - 1));
}

// What follows looks at the edges and at what holds of every input, on
// chosen values.

#[test]
fn every_inserted_word_is_found_and_counted_once() {
    let list = ArrayWordList::new(words(&["ant", "Ant", "bee", "ANT", "bee", "cat", ""]), true);
    let strict = TernaryTreeDictionary::with_wordlist(list);
    for word in ["ant", "Ant", "bee", "ANT", "cat"] {
        assert!(strict.search(word));
    }
    assert!(!strict.search(""));
    assert!(!strict.search("an"));
    assert!(!strict.search("ants"));
    assert_eq!(5, strict.len());

    let list = ArrayWordList::new(words(&["ant", "Ant", "bee", "ANT", "bee", "cat", ""]), false);
    let lenient = TernaryTreeDictionary::with_wordlist(list);
    for word in ["ant", "Ant", "bee", "ANT", "cat", "BEE", "cAt"] {
        assert!(lenient.search(word));
    }
    assert_eq!(3, lenient.len());
}

#[test]
fn keys_of_words() {
    let strict = TernaryTreeDictionary::with_wordlist(ArrayWordList::new(words(&["Ab"]), true));
    assert_eq!("Ab", strict.key("Ab"));
    assert_eq!("", strict.key(""));
    let lenient = TernaryTreeDictionary::with_wordlist(ArrayWordList::new(words(&["Ab"]), false));
    assert_eq!("ab", lenient.key("Ab"));
    assert_eq!("stra\u{df}e", lenient.key("STRA\u{df}E"));
}

#[test]
fn inserting_a_word_again_keeps_the_count() {
    let mut dictionary = TernaryTreeDictionary::with_wordlist(ArrayWordList::with_words(vec![]));
    assert_eq!(0, dictionary.len());
    assert!(!dictionary.search("word"));
    dictionary.insert("word");
    dictionary.insert("word");
    dictionary.insert("wo");
    dictionary.insert("");
    assert_eq!(2, dictionary.len());
    assert!(dictionary.search("word"));
    assert!(dictionary.search("wo"));
    assert!(!dictionary.search("wor"));
    assert!(!dictionary.search(""));
}

#[test]
fn three_sorted_words() {
    let three = three_words();
    assert_eq!(Some(1), binary_search(&three, "b"));
    assert_eq!(None, binary_search(&three, "d"));
}

#[test]
fn case_sensitivity_of_dictionaries() {
    let strict = TernaryTreeDictionary::with_wordlist(ArrayWordList::new(words(&["A", "AA"]), true));
    assert!(!strict.search("a"));
    assert!(strict.search("A"));
    let lenient =
        TernaryTreeDictionary::with_wordlist(ArrayWordList::new(words(&["A", "AA"]), false));
    assert!(lenient.search("a"));
    assert!(lenient.search("aa"));

    let strict = WordListDictionary::new(ArrayWordList::new(words(&["A", "AA"]), true));
    assert!(!strict.search("a"));
    let lenient = WordListDictionary::new(ArrayWordList::new(words(&["A", "AA"]), false));
    assert!(lenient.search("a"));
    assert!(lenient.search("Aa"));
}

#[test]
fn binary_search_finds_every_word_of_a_sorted_list() {
    for case_sensitive in [true, false] {
        let list = create_from_read(UNSORTED, case_sensitive, Some(QuickSort));
        let comparator = list.get_comparator();
        for i in 0..list.len() {
            let word = list.get(i).clone();
            let found = binary_search(&list, &word).unwrap();
            assert_eq!(WordOrder::Equal, comparator.compare(list.get(found), &word));
            assert_eq!(i, found);
        }
    }
}

#[test]
fn binary_search_probes_the_midpoint_first() {
    // Five equal words: the first probe is at 0 + 5 / 2.
    let list = ArrayWordList::with_words(words(&["a", "a", "a", "a", "a"]));
    assert_eq!(Some(2), binary_search(&list, "a"));
    // Equal under the comparator only: the probe at 0 + 4 / 2 comes first.
    let list = ArrayWordList::new(words(&["ab", "AB", "Ab", "aB"]), false);
    assert_eq!(Some(2), binary_search(&list, "AB"));
    let list = ArrayWordList::with_words(vec![]);
    assert_eq!(None, binary_search(&list, "a"));
}

#[test]
fn comparators_order_by_bytes() {
    assert_eq!(WordOrder::Less, Comparator::CaseSensitive.compare("B", "a"));
    assert_eq!(WordOrder::Greater, Comparator::CaseInsensitive.compare("B", "a"));
    assert_eq!(WordOrder::Equal, Comparator::CaseInsensitive.compare("ABC", "abc"));
    assert_eq!(WordOrder::Greater, Comparator::CaseSensitive.compare("abc", "ab"));
    assert_eq!(WordOrder::Less, Comparator::CaseSensitive.compare("", "a"));
    assert_eq!(WordOrder::Equal, Comparator::CaseSensitive.compare("", ""));
    assert_eq!(WordOrder::Less, Comparator::CaseSensitive.compare("z", "\u{e9}"));
    assert_eq!(
        std::cmp::Ordering::Less,
        passay_rs::dictionary::word_lists::array_word_list::case_sensitive_comparator("A", "a")
    );
    assert_eq!(
        std::cmp::Ordering::Equal,
        passay_rs::dictionary::word_lists::array_word_list::case_insensitive_comparator("A", "a")
    );
}

#[test]
fn sorters_take_short_lists() {
    let mut none: Vec<String> = vec![];
    BubbleSort.sort(&mut none[..]);
    BubbleSortOptimized.sort(&mut none[..]);
    InsertionSort.sort(&mut none[..]);
    QuickSort.sort(&mut none[..]);
    SelectionSort.sort(&mut none[..]);
    SliceSort.sort(&mut none[..]);
    assert!(none.is_empty());
    let mut one = words(&["a"]);
    QuickSort.sort(&mut one[..]);
    SelectionSort.sort(&mut one[..]);
    BubbleSort.sort(&mut one[..]);
    assert_eq!(words(&["a"]), one);
    let mut two = words(&["b", "a"]);
    QuickSort.sort(&mut two[..]);
    assert_eq!(words(&["a", "b"]), two);
}

#[test]
fn sorters_follow_the_comparator() {
    let expected = words(&["apple", "Apple", "BANANA", "banana", "cherry"]);
    let unsorted = words(&["cherry", "banana", "Apple", "BANANA", "apple"]);
    let mut a = unsorted.clone();
    BubbleSort.sort_with_comparator(&mut a[..], Comparator::CaseInsensitive);
    let lower = |v: &Vec<String>| v.iter().map(|w| w.to_lowercase()).collect::<Vec<String>>();
    assert_eq!(lower(&expected), lower(&a));
    let mut b = unsorted.clone();
    QuickSort.sort_with_comparator(&mut b[..], Comparator::CaseInsensitive);
    assert_eq!(lower(&expected), lower(&b));
    let mut c = unsorted.clone();
    SliceSort.sort_with_comparator(&mut c[..], Comparator::CaseSensitive);
    assert_eq!(words(&["Apple", "BANANA", "apple", "banana", "cherry"]), c);
    let mut d = words(&["b", "a", "b", "a", "c", "a"]);
    QuickSort.sort(&mut d[..]);
    assert_eq!(words(&["a", "a", "a", "b", "b", "c"]), d);
}

#[test]
fn lines_of_a_text() {
    assert_eq!(words(&["a", "", "b"]), read_words("a\r\nb\n"));
    assert_eq!(words(&["a", "b"]), read_words("a\nb"));
    assert_eq!(words(&[""]), read_words("\n"));
    assert!(read_words("").is_empty());
    let list = create_from_read("b\r\n\r\na\n", true, None::<SliceSort>);
    assert_eq!(2, list.len());
    assert_eq!("b", list.get(0));
    let list = create_from_reads(
        vec!["b\na\n".to_string(), "c\n\nA".to_string()],
        false,
        Some(InsertionSort),
    );
    assert_eq!(5, list.len());
    assert_eq!("", list.get(0));
    assert_eq!("c", list.get(4));
}

#[test]
fn builder_sorts_and_folds_case() {
    let dictionary = DictionaryBuilder::new()
        .add_read("pear\napple\n".to_string())
        .add_read("Fig".to_string())
        .build();
    assert_eq!(3, dictionary.len());
    assert!(dictionary.search("FIG"));
    assert!(dictionary.search("Apple"));
    assert!(!dictionary.search("plum"));
    let dictionary = DictionaryBuilder::default()
        .add_read("pear\napple\nFig".to_string())
        .case_sensitive(true)
        .build();
    assert!(!dictionary.search("fig"));
    assert!(dictionary.search("Fig"));
}
