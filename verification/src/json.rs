//! JSON documents, read and written by `serde_json`.

use vstd::prelude::*;

verus! {

/// What a JSON value is. A number with a fraction or an exponent is given by the bits of
/// its double.
pub enum JsonTree {
    Null,
    Bool(bool),
    Integer(int),
    Real(u64),
    Text(Seq<char>),
    List(Seq<JsonTree>),
    Object(Map<Seq<char>, JsonTree>),
}

/// A `serde_json::Value`.
#[verifier::external_type_specification]
#[verifier::external_body]
pub struct ExJsonValue(serde_json::Value);

/// A `serde_json::Error`.
#[verifier::external_type_specification]
#[verifier::external_body]
pub struct ExJsonError(serde_json::Error);

/// What a `serde_json::Value` holds.
pub uninterp spec fn json_tree(value: serde_json::Value) -> JsonTree;

/// What a `serde_json::Error` says.
pub uninterp spec fn json_error_text(error: serde_json::Error) -> Seq<char>;

/// What `serde_json::from_slice` reads from bytes, or what it says against them.
pub uninterp spec fn json_from_slice(bytes: Seq<u8>) -> Result<JsonTree, Seq<char>>;

/// What `serde_json::from_str` reads from a text, or what it says against it.
pub uninterp spec fn json_from_str(source: Seq<char>) -> Result<JsonTree, Seq<char>>;

/// The text that `serde_json::to_string` writes, or what it says against the value.
pub uninterp spec fn json_compact(tree: JsonTree) -> Result<Seq<char>, Seq<char>>;

/// The bytes that `serde_json::to_vec_pretty` writes, or what it says against the value.
pub uninterp spec fn json_pretty(tree: JsonTree) -> Result<Seq<u8>, Seq<char>>;

/// A value without numbers that have a fraction or an exponent, in which lists and
/// objects are nested at most `depth` deep.
pub open spec fn plain_within(tree: JsonTree, depth: nat) -> bool
    decreases depth,
{
    match tree {
        JsonTree::Real(_) => false,
        JsonTree::List(items) => depth > 0 && forall|i: int|
            0 <= i < items.len() ==> plain_within(#[trigger] items[i], (depth - 1) as nat),
        JsonTree::Object(members) => depth > 0 && forall|key: Seq<char>|
            members.dom().contains(key) ==> plain_within(
                #[trigger] members[key],
                (depth - 1) as nat,
            ),
        _ => true,
    }
}

/// Two values that differ at most in numbers that have a fraction or an exponent, and in
/// which lists and objects are nested at most `depth` deep.
pub open spec fn alike_within(a: JsonTree, b: JsonTree, depth: nat) -> bool
    decreases depth,
{
    match (a, b) {
        (JsonTree::Real(_), JsonTree::Real(_)) => true,
        (JsonTree::List(x), JsonTree::List(y)) => depth > 0 && x.len() == y.len() && forall|i: int|
            0 <= i < x.len() ==> alike_within(#[trigger] x[i], y[i], (depth - 1) as nat),
        (JsonTree::Object(x), JsonTree::Object(y)) => depth > 0 && x.dom() == y.dom() && forall|
            key: Seq<char>,
        |
            x.dom().contains(key) ==> alike_within(#[trigger] x[key], y[key], (depth - 1) as nat),
        _ => a == b,
    }
}

/// Values that are alike are so within a greater depth too.
pub proof fn alike_within_more(a: JsonTree, b: JsonTree, depth: nat, more: nat)
    requires
        alike_within(a, b, depth),
        depth <= more,
    ensures
        alike_within(a, b, more),
    decreases depth,
{
    match (a, b) {
        (JsonTree::List(x), JsonTree::List(y)) => {
            assert forall|i: int| 0 <= i < x.len() implies alike_within(
                #[trigger] x[i],
                y[i],
                (more - 1) as nat,
            ) by {
                alike_within_more(x[i], y[i], (depth - 1) as nat, (more - 1) as nat);
            }
        },
        (JsonTree::Object(x), JsonTree::Object(y)) => {
            assert forall|key: Seq<char>| x.dom().contains(key) implies alike_within(
                #[trigger] x[key],
                y[key],
                (more - 1) as nat,
            ) by {
                alike_within_more(x[key], y[key], (depth - 1) as nat, (more - 1) as nat);
            }
        },
        _ => {},
    }
}

/// Values that are alike to a third in the middle are alike.
pub proof fn alike_is_transitive(a: JsonTree, b: JsonTree, c: JsonTree, depth: nat)
    requires
        alike_within(a, b, depth),
        alike_within(b, c, depth),
    ensures
        alike_within(a, c, depth),
    decreases depth,
{
    match (a, b, c) {
        (JsonTree::List(x), JsonTree::List(y), JsonTree::List(z)) => {
            assert forall|i: int| 0 <= i < x.len() implies alike_within(
                #[trigger] x[i],
                z[i],
                (depth - 1) as nat,
            ) by {
                assert(alike_within(y[i], z[i], (depth - 1) as nat));
                alike_is_transitive(x[i], y[i], z[i], (depth - 1) as nat);
            }
        },
        (JsonTree::Object(x), JsonTree::Object(y), JsonTree::Object(z)) => {
            assert forall|key: Seq<char>| x.dom().contains(key) implies alike_within(
                #[trigger] x[key],
                z[key],
                (depth - 1) as nat,
            ) by {
                assert(alike_within(y[key], z[key], (depth - 1) as nat));
                alike_is_transitive(x[key], y[key], z[key], (depth - 1) as nat);
            }
        },
        _ => {},
    }
}

/// What comes of a number with a fraction or an exponent that is written alone and read.
pub open spec fn read_alone(bits: u64) -> Result<JsonTree, Seq<char>> {
    match json_compact(JsonTree::Real(bits)) {
        Ok(written) => json_from_str(written),
        Err(error) => Err(error),
    }
}

/// A value that is read once it is written: each of its numbers, written alone, is read,
/// and lists and objects are nested at most `depth` deep.
pub open spec fn readable_within(tree: JsonTree, depth: nat) -> bool
    decreases depth,
{
    match tree {
        JsonTree::Real(bits) => read_alone(bits) is Ok,
        JsonTree::List(items) => depth > 0 && forall|i: int|
            0 <= i < items.len() ==> readable_within(#[trigger] items[i], (depth - 1) as nat),
        JsonTree::Object(members) => depth > 0 && forall|key: Seq<char>|
            members.dom().contains(key) ==> readable_within(
                #[trigger] members[key],
                (depth - 1) as nat,
            ),
        _ => true,
    }
}

/// A value each of whose numbers, written alone, is read back as itself, and in which lists
/// and objects are nested at most `depth` deep.
pub open spec fn survives_within(tree: JsonTree, depth: nat) -> bool
    decreases depth,
{
    match tree {
        JsonTree::Real(bits) => read_alone(bits) == Ok::<JsonTree, Seq<char>>(tree),
        JsonTree::List(items) => depth > 0 && forall|i: int|
            0 <= i < items.len() ==> survives_within(#[trigger] items[i], (depth - 1) as nat),
        JsonTree::Object(members) => depth > 0 && forall|key: Seq<char>|
            members.dom().contains(key) ==> survives_within(
                #[trigger] members[key],
                (depth - 1) as nat,
            ),
        _ => true,
    }
}

/// What is read where `tree` was written: the same, but that each number with a fraction or
/// an exponent is what is read where it was written alone.
pub open spec fn reads_as(found: JsonTree, tree: JsonTree, depth: nat) -> bool
    decreases depth,
{
    match (found, tree) {
        (JsonTree::Real(_), JsonTree::Real(bits)) => read_alone(bits) == Ok::<
            JsonTree,
            Seq<char>,
        >(found),
        (JsonTree::List(x), JsonTree::List(y)) => depth > 0 && x.len() == y.len() && forall|i: int|
            0 <= i < x.len() ==> reads_as(#[trigger] x[i], y[i], (depth - 1) as nat),
        (JsonTree::Object(x), JsonTree::Object(y)) => depth > 0 && x.dom() == y.dom() && forall|
            key: Seq<char>,
        |
            x.dom().contains(key) ==> reads_as(#[trigger] x[key], y[key], (depth - 1) as nat),
        _ => found == tree,
    }
}

/// What is read is the value that was written exactly where each of its numbers, written
/// alone, is read back as itself.
pub proof fn reads_exactly_what_survives(found: JsonTree, tree: JsonTree, depth: nat)
    requires
        reads_as(found, tree, depth),
    ensures
        found == tree <==> survives_within(tree, depth),
    decreases depth,
{
    match (found, tree) {
        (JsonTree::List(x), JsonTree::List(y)) => {
            let less = (depth - 1) as nat;
            assert forall|i: int| 0 <= i < x.len() implies (#[trigger] x[i] == y[i]
                <==> survives_within(y[i], less)) by {
                reads_exactly_what_survives(x[i], y[i], less);
            }
            if survives_within(tree, depth) {
                assert(x =~= y);
            }
            if found == tree {
                assert forall|i: int| 0 <= i < y.len() implies survives_within(
                    #[trigger] y[i],
                    less,
                ) by {
                    assert(x[i] == y[i]);
                }
            }
        },
        (JsonTree::Object(x), JsonTree::Object(y)) => {
            let less = (depth - 1) as nat;
            assert forall|key: Seq<char>| x.dom().contains(key) implies (#[trigger] x[key] == y[key]
                <==> survives_within(y[key], less)) by {
                reads_exactly_what_survives(x[key], y[key], less);
            }
            if survives_within(tree, depth) {
                assert(x =~= y);
            }
            if found == tree {
                assert forall|key: Seq<char>| y.dom().contains(key) implies survives_within(
                    #[trigger] y[key],
                    less,
                ) by {
                    assert(x[key] == y[key]);
                }
            }
        },
        _ => {},
    }
}

/// A value that survives is read, and one without numbers that have a fraction or an
/// exponent survives.
pub proof fn surviving_values_are_read(tree: JsonTree, depth: nat)
    ensures
        survives_within(tree, depth) ==> readable_within(tree, depth),
        plain_within(tree, depth) ==> survives_within(tree, depth),
    decreases depth,
{
    match tree {
        JsonTree::List(items) => {
            if depth > 0 {
                let less = (depth - 1) as nat;
                assert forall|i: int| 0 <= i < items.len() implies (survives_within(
                    #[trigger] items[i],
                    less,
                ) ==> readable_within(items[i], less)) && (plain_within(items[i], less)
                    ==> survives_within(items[i], less)) by {
                    surviving_values_are_read(items[i], less);
                }
            }
        },
        JsonTree::Object(members) => {
            if depth > 0 {
                let less = (depth - 1) as nat;
                assert forall|key: Seq<char>| members.dom().contains(key) implies (survives_within(
                    #[trigger] members[key],
                    less,
                ) ==> readable_within(members[key], less)) && (plain_within(members[key], less)
                    ==> survives_within(members[key], less)) by {
                    surviving_values_are_read(members[key], less);
                }
            }
        },
        _ => {},
    }
}

/// A value that survives within a depth does so within a greater depth too.
pub proof fn survives_within_more(tree: JsonTree, depth: nat, more: nat)
    requires
        survives_within(tree, depth),
        depth <= more,
    ensures
        survives_within(tree, more),
    decreases depth,
{
    match tree {
        JsonTree::List(items) => {
            assert forall|i: int| 0 <= i < items.len() implies survives_within(
                #[trigger] items[i],
                (more - 1) as nat,
            ) by {
                survives_within_more(items[i], (depth - 1) as nat, (more - 1) as nat);
            }
        },
        JsonTree::Object(members) => {
            assert forall|key: Seq<char>| members.dom().contains(key) implies survives_within(
                #[trigger] members[key],
                (more - 1) as nat,
            ) by {
                survives_within_more(members[key], (depth - 1) as nat, (more - 1) as nat);
            }
        },
        _ => {},
    }
}

/// What is read differs from what was written at most in numbers that have a fraction or an
/// exponent.
pub proof fn reads_alike(found: JsonTree, tree: JsonTree, depth: nat)
    requires
        reads_as(found, tree, depth),
    ensures
        alike_within(found, tree, depth),
    decreases depth,
{
    match (found, tree) {
        (JsonTree::List(x), JsonTree::List(y)) => {
            assert forall|i: int| 0 <= i < x.len() implies alike_within(
                #[trigger] x[i],
                y[i],
                (depth - 1) as nat,
            ) by {
                reads_alike(x[i], y[i], (depth - 1) as nat);
            }
        },
        (JsonTree::Object(x), JsonTree::Object(y)) => {
            assert forall|key: Seq<char>| x.dom().contains(key) implies alike_within(
                #[trigger] x[key],
                y[key],
                (depth - 1) as nat,
            ) by {
                reads_alike(x[key], y[key], (depth - 1) as nat);
            }
        },
        _ => {},
    }
}

/// The depth of nesting that `serde_json` reads: its limit of 128 lets 127 lists and
/// objects stand in one another.
pub open spec fn readable_depth() -> nat {
    127
}

/// The member of an object with the given key.
pub open spec fn member_of(tree: JsonTree, key: Seq<char>) -> Option<JsonTree> {
    match tree {
        JsonTree::Object(members) if members.dom().contains(key) => Some(members[key]),
        _ => None,
    }
}

pub open spec fn text_of(tree: JsonTree) -> Option<Seq<char>> {
    match tree {
        JsonTree::Text(t) => Some(t),
        _ => None,
    }
}

pub open spec fn unsigned_of(tree: JsonTree) -> Option<int> {
    match tree {
        JsonTree::Integer(n) if n >= 0 => Some(n),
        _ => None,
    }
}

/// `serde_json::from_slice`, for a `Value`: the result depends on the bytes alone.
#[verifier::external_body]
pub(crate) fn read_slice(bytes: &[u8]) -> (r: Result<serde_json::Value, serde_json::Error>)
    ensures
        match r {
            Ok(value) => json_from_slice(bytes@) == Ok::<JsonTree, Seq<char>>(json_tree(value)),
            Err(error) => json_from_slice(bytes@) == Err::<JsonTree, Seq<char>>(
                json_error_text(error),
            ),
        },
{
    serde_json::from_slice(bytes)
}

/// `serde_json::from_str`, for a `Value`: the result depends on the text alone.
#[verifier::external_body]
pub(crate) fn read_str(source: &str) -> (r: Result<serde_json::Value, serde_json::Error>)
    ensures
        match r {
            Ok(value) => json_from_str(source@) == Ok::<JsonTree, Seq<char>>(json_tree(value)),
            Err(error) => json_from_str(source@) == Err::<JsonTree, Seq<char>>(
                json_error_text(error),
            ),
        },
{
    serde_json::from_str(source)
}

/// What comes of reading what was written for a value. It is read exactly where each number
/// with a fraction or an exponent, written alone, is read, and where the value is not nested
/// too deep; and each such number is read as it is alone.
pub open spec fn reads_back(back: Result<JsonTree, Seq<char>>, tree: JsonTree) -> bool {
    &&& back is Ok <==> readable_within(tree, readable_depth())
    &&& back matches Ok(found) ==> reads_as(found, tree, readable_depth())
}

/// `serde_json::to_string`, of a `Value`: it never fails, as a value has nothing but texts
/// as keys and the writing goes to memory. The result depends on what the value holds
/// alone, as objects keep their members sorted. What it wrote, `from_str` reads back: a
/// number is written and read in the same way wherever it stands, and one with a fraction
/// or an exponent is written with a point or an exponent. Which of these numbers are read
/// back as themselves, or at all, is not said here.
#[verifier::external_body]
pub(crate) fn write_compact(value: &serde_json::Value) -> (r: Result<String, serde_json::Error>)
    ensures
        match r {
            Ok(written) => {
                &&& json_compact(json_tree(*value)) == Ok::<Seq<char>, Seq<char>>(written@)
                &&& reads_back(json_from_str(written@), json_tree(*value))
            },
            Err(_) => false,
        },
{
    serde_json::to_string(value)
}

/// `serde_json::to_vec_pretty`, of a `Value`: it never fails, for the same reasons, and the
/// result depends on what the value holds alone. What it wrote, `from_slice` reads back,
/// number for number as `from_str` reads what `to_string` writes, with the same left unsaid.
#[verifier::external_body]
pub(crate) fn write_pretty(value: &serde_json::Value) -> (r: Result<Vec<u8>, serde_json::Error>)
    ensures
        match r {
            Ok(written) => {
                &&& json_pretty(json_tree(*value)) == Ok::<Seq<u8>, Seq<char>>(written@)
                &&& reads_back(json_from_slice(written@), json_tree(*value))
            },
            Err(_) => false,
        },
{
    serde_json::to_vec_pretty(value)
}

/// `serde_json::Error`'s text, as `to_string` gives it.
#[verifier::external_body]
pub(crate) fn error_message(error: &serde_json::Error) -> (r: String)
    ensures
        r@ == json_error_text(*error),
{
    error.to_string()
}

/// `serde_json::Value::get`, with a text as the key: the member of an object, and
/// nothing for any other value.
#[verifier::external_body]
pub(crate) fn member<'a>(value: &'a serde_json::Value, key: &str) -> (r: Option<
    &'a serde_json::Value,
>)
    ensures
        match r {
            Some(found) => member_of(json_tree(*value), key@) == Some(json_tree(*found)),
            None => member_of(json_tree(*value), key@) is None,
        },
{
    value.get(key)
}

/// `serde_json::Value::as_str`: the text of a text, and nothing for any other value.
#[verifier::external_body]
pub(crate) fn as_text(value: &serde_json::Value) -> (r: Option<&str>)
    ensures
        match r {
            Some(found) => text_of(json_tree(*value)) == Some(found@),
            None => text_of(json_tree(*value)) is None,
        },
{
    value.as_str()
}

/// `serde_json::Value::as_u64`: an integer that is not negative, and nothing for any
/// other value.
#[verifier::external_body]
pub(crate) fn as_unsigned(value: &serde_json::Value) -> (r: Option<u64>)
    ensures
        match r {
            Some(n) => unsigned_of(json_tree(*value)) == Some(n as int),
            None => unsigned_of(json_tree(*value)) is None,
        },
{
    value.as_u64()
}

/// `serde_json::Value::default`: null.
#[verifier::external_body]
pub(crate) fn null_value() -> (r: serde_json::Value)
    ensures
        json_tree(r) == JsonTree::Null,
{
    serde_json::Value::default()
}

/// `serde_json::Value::from`, of a text.
#[verifier::external_body]
pub(crate) fn text_value(source: &str) -> (r: serde_json::Value)
    ensures
        json_tree(r) == JsonTree::Text(source@),
{
    serde_json::Value::from(source)
}

/// `serde_json::Value::from`, of an unsigned integer.
#[verifier::external_body]
pub(crate) fn unsigned_value(n: u64) -> (r: serde_json::Value)
    ensures
        json_tree(r) == JsonTree::Integer(n as int),
{
    serde_json::Value::from(n)
}

/// The members of an object; null counts as an object without members.
pub open spec fn members_of(tree: JsonTree) -> Map<Seq<char>, JsonTree> {
    match tree {
        JsonTree::Object(members) => members,
        _ => Map::empty(),
    }
}

/// Indexing a `serde_json::Value` with a text and assigning: sets the member of an
/// object. Null becomes an object first; any other value would panic.
#[verifier::external_body]
pub(crate) fn set_member(value: &mut serde_json::Value, key: &str, item: serde_json::Value)
    requires
        json_tree(*old(value)) is Null || json_tree(*old(value)) is Object,
    ensures
        json_tree(*final(value)) == JsonTree::Object(
            members_of(json_tree(*old(value))).insert(key@, json_tree(item)),
        ),
{
    value[key] = item;
}

} // verus!
