//! Documents that differ only in the keys they use for a field decode to
//! the same reading list.

use crate::cbl::{
    database_field, decoded_book, decoded_books, decoded_database, decoded_entry, decoded_list,
    items_field,
};
use crate::common::ABSENT;
use crate::document::{ElementView, NodeView};
use crate::schema::{
    element_at, found, lemma_same_key_names, names, nested_field, number_field, occurs, same_key,
    sole, text_at, text_field, Field, Found, Place, Record,
};
use vstd::prelude::*;

verus! {

/// Two nodes that are one node but for the key in an element's tag.
pub open spec fn alike_node(record: Record, a: NodeView, b: NodeView) -> bool {
    match (a, b) {
        (NodeView::Text(s), NodeView::Text(t)) => s == t,
        (NodeView::Element(x), NodeView::Element(y)) => same_key(record, x.name, y.name)
            && x.attributes == y.attributes && x.children == y.children,
        _ => false,
    }
}

/// Two elements that state one record of the kind `record` but for the
/// keys they use: attribute by attribute the same value under keys that
/// the record reads alike, and child by child the same text, or elements
/// under tags that the record reads alike. The child elements hold the
/// same, except that nothing is said here of those that state the field
/// `apart`.
pub open spec fn alike(
    record: Record,
    a: ElementView,
    b: ElementView,
    apart: Option<Field>,
) -> bool {
    &&& a.attributes.len() == b.attributes.len()
    &&& forall|i: int|
        0 <= i < a.attributes.len() ==> same_key(
            record,
            (#[trigger] a.attributes[i]).name,
            b.attributes[i].name,
        ) && a.attributes[i].value == b.attributes[i].value
    &&& a.children.len() == b.children.len()
    &&& forall|i: int|
        0 <= i < a.children.len() ==> match (#[trigger] a.children[i], b.children[i]) {
            (NodeView::Text(s), NodeView::Text(t)) => s == t,
            (NodeView::Element(x), NodeView::Element(y)) => same_key(record, x.name, y.name) && (
            apart matches Some(field) && names(x.name, record, field) || x.attributes
                == y.attributes && x.children == y.children),
            _ => false,
        }
}

/// Two elements that state one database reference but for the keys they
/// use.
pub open spec fn alike_database(a: ElementView, b: ElementView) -> bool {
    alike(Record::Database, a, b, None)
}

/// Two elements that state one issue but for the keys they use, the keys
/// inside the database reference included.
pub open spec fn alike_book(a: ElementView, b: ElementView) -> bool {
    &&& alike(Record::Book, a, b, Some(Field::Database))
    &&& forall|i: int|
        0 <= i < a.children.len() ==> match (#[trigger] a.children[i], b.children[i]) {
            (NodeView::Element(x), NodeView::Element(y)) => names(
                x.name,
                Record::Book,
                Field::Database,
            ) ==> alike_database(x, y),
            _ => true,
        }
}

/// Two nodes of an issue list that state one issue but for the keys they
/// use. The tag of an issue's element is free.
pub open spec fn alike_entry(a: NodeView, b: NodeView) -> bool {
    match (a, b) {
        (NodeView::Text(s), NodeView::Text(t)) => s == t,
        (NodeView::Element(x), NodeView::Element(y)) => alike_book(x, y),
        _ => false,
    }
}

/// Two runs of nodes that state the same issues but for the keys they use.
pub open spec fn alike_entries(a: Seq<NodeView>, b: Seq<NodeView>) -> bool {
    &&& a.len() == b.len()
    &&& forall|i: int| 0 <= i < a.len() ==> alike_entry(#[trigger] a[i], b[i])
}

/// Two documents that state one reading list but for the keys they use, at
/// every level.
pub open spec fn alike_list(a: ElementView, b: ElementView) -> bool {
    &&& alike(Record::List, a, b, Some(Field::Books))
    &&& forall|i: int|
        0 <= i < a.children.len() ==> match (#[trigger] a.children[i], b.children[i]) {
            (NodeView::Element(x), NodeView::Element(y)) => names(
                x.name,
                Record::List,
                Field::Books,
            ) ==> alike_entries(x.children, y.children),
            _ => true,
        }
}

/// Elements that are alike state each field at the same places.
proof fn lemma_alike_occurs(
    record: Record,
    a: ElementView,
    b: ElementView,
    apart: Option<Field>,
    field: Field,
    place: Place,
)
    requires
        alike(record, a, b, apart),
    ensures
        occurs(a, record, field, place) == occurs(b, record, field, place),
{
    match place {
        Place::Attribute(i) => {
            if 0 <= i < a.attributes.len() {
                lemma_same_key_names(record, a.attributes[i].name, b.attributes[i].name, field);
            }
        },
        Place::Child(i) => {
            if 0 <= i < a.children.len() {
                match (a.children[i], b.children[i]) {
                    (NodeView::Element(x), NodeView::Element(y)) => {
                        lemma_same_key_names(record, x.name, y.name, field);
                    },
                    _ => {},
                }
            }
        },
    }
}

/// Elements that are alike state each field equally often, at the same
/// place.
proof fn lemma_alike_found(
    record: Record,
    a: ElementView,
    b: ElementView,
    apart: Option<Field>,
    field: Field,
)
    requires
        alike(record, a, b, apart),
    ensures
        found(a, record, field) == found(b, record, field),
{
    assert forall|place: Place|
        occurs(a, record, field, place) == occurs(b, record, field, place) by {
        lemma_alike_occurs(record, a, b, apart, field, place);
    }
    assert forall|place: Place|
        sole(a, record, field, place) == sole(b, record, field, place) by {
        assert forall|other: Place|
            occurs(a, record, field, other) == occurs(b, record, field, other) by {
            lemma_alike_occurs(record, a, b, apart, field, other);
        }
    }
    match found(a, record, field) {
        Found::Once(place) => {
            assert(sole(a, record, field, place));
            assert(sole(b, record, field, place));
            let other = choose|other: Place| sole(b, record, field, other);
            assert(occurs(b, record, field, place));
            assert(other == place);
        },
        Found::Missing => {
            assert forall|place: Place| !#[trigger] occurs(b, record, field, place) by {
                assert(!occurs(a, record, field, place));
            }
        },
        Found::Repeated => {
            let witness = choose|place: Place| occurs(a, record, field, place);
            assert(occurs(b, record, field, witness));
            assert forall|place: Place| !sole(b, record, field, place) by {
                assert(!sole(a, record, field, place));
            }
        },
    }
}

/// Elements that are alike give each text field and each number field the
/// same value. This holds of every field but the one set apart.
pub proof fn lemma_alike_values(
    record: Record,
    a: ElementView,
    b: ElementView,
    apart: Option<Field>,
    field: Field,
    default: Option<i32>,
)
    requires
        alike(record, a, b, apart),
        apart != Some(field),
    ensures
        text_field(a, record, field) == text_field(b, record, field),
        number_field(a, record, field, default) == number_field(b, record, field, default),
{
    lemma_alike_found(record, a, b, apart, field);
    match found(a, record, field) {
        Found::Once(place) => {
            assert(sole(a, record, field, place));
            match place {
                Place::Attribute(i) => {
                    assert(a.attributes[i].value == b.attributes[i].value);
                },
                Place::Child(i) => {
                    match (a.children[i], b.children[i]) {
                        (NodeView::Element(x), NodeView::Element(y)) => {
                            if apart matches Some(other) && names(x.name, record, other) {
                                crate::schema::lemma_key_names_one_field(
                                    x.name,
                                    record,
                                    field,
                                    apart->Some_0,
                                );
                            }
                        },
                        _ => {},
                    }
                },
            }
            assert(text_at(a, place) == text_at(b, place));
        },
        _ => {},
    }
}

/// Elements that are alike state the field set apart in the same way: both
/// with a fault, both not at all, or both with the child at one position.
pub proof fn lemma_alike_nested(record: Record, a: ElementView, b: ElementView, field: Field)
    requires
        alike(record, a, b, Some(field)),
    ensures
        match (nested_field(a, record, field), nested_field(b, record, field)) {
            (Err(m), Err(n)) => m == n,
            (Ok(None), Ok(None)) => true,
            (Ok(Some(x)), Ok(Some(y))) => exists|i: int|
                0 <= i < a.children.len() && #[trigger] a.children[i] == NodeView::Element(x)
                    && b.children[i] == NodeView::Element(y) && names(x.name, record, field),
            _ => false,
        },
{
    lemma_alike_found(record, a, b, Some(field), field);
    match found(a, record, field) {
        Found::Once(place) => {
            assert(sole(a, record, field, place));
            match place {
                Place::Attribute(_) => {},
                Place::Child(i) => {
                    assert(a.children[i] is Element);
                    assert(b.children[i] is Element);
                },
            }
        },
        _ => {},
    }
}

/// Two elements that state one database reference but for the keys they
/// use decode to the same reference.
pub proof fn lemma_alike_database(a: ElementView, b: ElementView)
    requires
        alike_database(a, b),
    ensures
        decoded_database(a) == decoded_database(b),
{
    lemma_alike_values(Record::Database, a, b, None, Field::Name, None);
    lemma_alike_values(Record::Database, a, b, None, Field::Series, None);
    lemma_alike_values(Record::Database, a, b, None, Field::Issue, None);
}

/// Two elements that state one issue but for the keys they use decode to
/// the same issue.
pub proof fn lemma_alike_book(a: ElementView, b: ElementView)
    requires
        alike_book(a, b),
    ensures
        decoded_book(a) == decoded_book(b),
{
    let apart = Some(Field::Database);
    lemma_alike_values(Record::Book, a, b, apart, Field::Id, None);
    lemma_alike_values(Record::Book, a, b, apart, Field::FileName, None);
    lemma_alike_values(Record::Book, a, b, apart, Field::Series, None);
    lemma_alike_values(Record::Book, a, b, apart, Field::Number, None);
    lemma_alike_values(Record::Book, a, b, apart, Field::Volume, Some(ABSENT));
    lemma_alike_values(Record::Book, a, b, apart, Field::Year, Some(ABSENT));
    lemma_alike_values(Record::Book, a, b, apart, Field::Format, None);
    lemma_alike_nested(Record::Book, a, b, Field::Database);
    match (
        nested_field(a, Record::Book, Field::Database),
        nested_field(b, Record::Book, Field::Database),
    ) {
        (Ok(Some(x)), Ok(Some(y))) => {
            let i = choose|i: int|
                0 <= i < a.children.len() && #[trigger] a.children[i] == NodeView::Element(x)
                    && b.children[i] == NodeView::Element(y) && names(
                    x.name,
                    Record::Book,
                    Field::Database,
                );
            assert(alike_database(x, y));
            lemma_alike_database(x, y);
        },
        _ => {},
    }
    assert(database_field(a) == database_field(b));
}

/// Two runs of nodes that state the same issues but for the keys they use
/// decode to the same issues.
pub proof fn lemma_alike_entries(a: Seq<NodeView>, b: Seq<NodeView>)
    requires
        alike_entries(a, b),
    ensures
        decoded_books(a) == decoded_books(b),
    decreases a.len(),
{
    if a.len() > 0 {
        assert(alike_entries(a.drop_last(), b.drop_last())) by {
            assert forall|i: int| 0 <= i < a.drop_last().len() implies alike_entry(
                #[trigger] a.drop_last()[i],
                b.drop_last()[i],
            ) by {
                assert(alike_entry(a[i], b[i]));
            }
        }
        lemma_alike_entries(a.drop_last(), b.drop_last());
        assert(alike_entry(a[a.len() - 1], b[a.len() - 1]));
        match (a.last(), b.last()) {
            (NodeView::Element(x), NodeView::Element(y)) => {
                lemma_alike_book(x, y);
            },
            _ => {},
        }
        assert(decoded_entry(a.last()) == decoded_entry(b.last()));
    }
}

/// Two documents that state one reading list but for the keys they use
/// decode to the same reading list, or fail with the same diagnostic.
pub proof fn lemma_alias_equivalence(a: ElementView, b: ElementView)
    requires
        alike_list(a, b),
    ensures
        decoded_list(a) == decoded_list(b),
{
    let apart = Some(Field::Books);
    lemma_alike_values(Record::List, a, b, apart, Field::Name, None);
    lemma_alike_values(Record::List, a, b, apart, Field::NumIssues, None);
    lemma_alike_nested(Record::List, a, b, Field::Books);
    match (
        nested_field(a, Record::List, Field::Books),
        nested_field(b, Record::List, Field::Books),
    ) {
        (Ok(Some(x)), Ok(Some(y))) => {
            let i = choose|i: int|
                0 <= i < a.children.len() && #[trigger] a.children[i] == NodeView::Element(x)
                    && b.children[i] == NodeView::Element(y) && names(
                    x.name,
                    Record::List,
                    Field::Books,
                );
            assert(alike_entries(x.children, y.children));
            lemma_alike_entries(x.children, y.children);
        },
        _ => {},
    }
    assert(items_field(a) == items_field(b));
}

} // verus!
