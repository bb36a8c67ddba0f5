use gas_network::book::{Book, RawAuthor};
use gas_network::ranking::{
    author_totals_fit, top_authors_by_reviews, top_publishers_by_book_count, AuthorNames,
};

fn book(title: &str, ratings: Option<&str>, authors: &[&str], publisher: Option<&str>) -> Book {
    Book {
        title: title.to_string(),
        ratings_count: ratings.map(|r| r.to_string()),
        authors: authors
            .iter()
            .map(|a| RawAuthor { author_id: a.to_string() })
            .collect(),
        publisher: publisher.map(|p| p.to_string()),
    }
}

fn names() -> AuthorNames {
    let mut n = AuthorNames::new();
    n.insert("1".to_string(), "Ann".to_string());
    n.insert("2".to_string(), "Bob".to_string());
    n.insert("3".to_string(), "Cid".to_string());
    n
}

#[test]
fn publishers_ranked_by_count_then_lowercase_name() {
    let mut books = Vec::new();
    for p in [
        "Penguin", "Penguin", "Penguin", "Anchor", "Anchor", " Zed ", "Zed", "apex", "apex",
        "Dell", "Bantam",
    ] {
        books.push(book("t", None, &[], Some(p)));
    }
    books.push(book("t", None, &[], None));
    books.push(book("t", None, &[], Some("   ")));
    let r = top_publishers_by_book_count(&books);
    assert_eq!(
        r,
        vec![
            ("Penguin".to_string(), 3),
            ("Anchor".to_string(), 2),
            ("apex".to_string(), 2),
            ("Zed".to_string(), 2),
            ("Bantam".to_string(), 1),
        ]
    );
}

#[test]
fn publishers_fewer_than_five() {
    let books = vec![
        book("a", None, &[], Some("B")),
        book("b", None, &[], Some("A")),
        book("c", None, &[], Some("B")),
    ];
    let r = top_publishers_by_book_count(&books);
    assert_eq!(r, vec![("B".to_string(), 2), ("A".to_string(), 1)]);
    assert!(top_publishers_by_book_count(&[]).is_empty());
}

#[test]
fn authors_ranked_by_reviews_with_top_three_books() {
    let books = vec![
        book("A1", Some("10"), &["1"], None),
        book("A2", Some("30"), &["1", "2"], None),
        book("A3", Some("10"), &["1"], None),
        book("A4", Some("5"), &["1"], None),
        book("B1", Some("100"), &["2"], None),
        book("C1", Some("x"), &["3"], None),
        book("C2", None, &["3"], None),
        book("N", Some("7"), &["9"], None),
        book("E", Some("8"), &[], None),
        book("C3", Some("+4"), &["3"], None),
    ];
    let a = names();
    assert!(author_totals_fit(&books, &a));
    let r = top_authors_by_reviews(&books, &a);
    assert_eq!(
        r,
        vec![
            ("Bob".to_string(), 100, vec![("B1".to_string(), 100)]),
            (
                "Ann".to_string(),
                55,
                vec![
                    ("A2".to_string(), 30),
                    ("A1".to_string(), 10),
                    ("A3".to_string(), 10)
                ]
            ),
            ("Cid".to_string(), 4, vec![("C3".to_string(), 4)]),
        ]
    );
}

#[test]
fn author_totals_that_overflow_are_detected() {
    let books = vec![
        book("X", Some("4294967295"), &["1"], None),
        book("Y", Some("1"), &["1"], None),
    ];
    assert!(!author_totals_fit(&books, &names()));
    let fits = vec![
        book("X", Some("4294967295"), &["1"], None),
        book("Y", Some("1"), &["2"], None),
    ];
    assert!(author_totals_fit(&fits, &names()));
}

#[test]
fn author_names_later_entries_replace_earlier() {
    let mut n = AuthorNames::new();
    n.insert("7".to_string(), "Old".to_string());
    n.insert("7".to_string(), "New".to_string());
    assert_eq!(n.get("7"), Some(&"New".to_string()));
    assert_eq!(n.get("8"), None);
}
