//! What the library has from `serde_json`: reading values out of a text, and writing
//! the text of a table of small objects.

use crate::table::keys_distinct;
use crate::table::lemma_map_has_row;
use crate::table::lemma_row_in_map;
use crate::table::rows_map;
use crate::text::same_text;
use crate::text::texts;
use crate::text::to_chars;
use std::collections::BTreeMap;
use std::collections::HashMap;
use vstd::prelude::*;
use vstd::string::*;

verus! {

/// What `serde_json` reads `text` as where a mapping from strings to strings is asked
/// for; `None` where it reports an error.
pub uninterp spec fn json_strings(text: Seq<char>) -> Option<Map<Seq<char>, Seq<char>>>;

/// The members of the object that `text` is, each value as its JSON text; `None` where
/// `serde_json` reports that `text` is no object.
pub uninterp spec fn json_members(text: Seq<char>) -> Option<Map<Seq<char>, Seq<char>>>;

/// The elements of the array that `text` is, each as its JSON text; `None` where
/// `serde_json` reports that `text` is no array.
pub uninterp spec fn json_elements(text: Seq<char>) -> Option<Seq<Seq<char>>>;

/// The characters of the JSON string that `text` is; `None` where `serde_json` reports
/// that `text` is no string.
pub uninterp spec fn json_string(text: Seq<char>) -> Option<Seq<char>>;

/// The JSON value that `text` starts with, as its text, and what follows it; `None` where
/// `serde_json` finds no value there.
pub uninterp spec fn json_first(text: Seq<char>) -> Option<(Seq<char>, Seq<char>)>;

/// The text that `serde_json` writes, with its default indentation and keys in
/// ascending order, for one object for each row, under the row's key: an object of a
/// string member named `text_field` and a boolean member named `flag_field`.
pub uninterp spec fn json_pretty(
    rows: Map<Seq<char>, (Seq<char>, bool)>,
    text_field: Seq<char>,
    flag_field: Seq<char>,
) -> Seq<char>;

/// Whether a character is white space between the tokens of a JSON text.
pub open spec fn is_json_space(c: char) -> bool {
    c == ' ' || c == '\n' || c == '\t' || c == '\r'
}

/// Whether `text` is `word`, with JSON white space around it or none.
pub open spec fn is_json_word(text: Seq<char>, word: Seq<char>) -> bool {
    exists|before: int, after: int|
        {
            &&& 0 <= before <= after <= text.len()
            &&& #[trigger] text.subrange(before, after) == word
            &&& forall|i: int| 0 <= i < before ==> is_json_space(text[i])
            &&& forall|i: int| after <= i < text.len() ==> is_json_space(text[i])
        }
}

/// The boolean that `text` is, if it is one.
pub open spec fn json_flag(text: Seq<char>) -> Option<bool> {
    if is_json_word(text, "true"@) {
        Some(true)
    } else if is_json_word(text, "false"@) {
        Some(false)
    } else {
        None
    }
}

/// The strings that pairs stand for, as a mapping.
pub open spec fn pairs_map(pairs: Seq<(String, String)>) -> Map<Seq<char>, Seq<char>> {
    rows_map(pairs).map_values(|s: String| s@)
}

/// The value of `name`, if it has one.
pub open spec fn value_of(members: Map<Seq<char>, Seq<char>>, name: Seq<char>) -> Option<
    Seq<char>,
> {
    if members.contains_key(name) {
        Some(members[name])
    } else {
        None
    }
}

/// What follows the character `mark`, where `text` is that mark after JSON white space or
/// none.
pub open spec fn past(text: Seq<char>, mark: char) -> Option<Seq<char>>
    decreases text.len(),
{
    if text.len() == 0 {
        None
    } else if is_json_space(text[0]) {
        past(text.drop_first(), mark)
    } else if text[0] == mark {
        Some(text.drop_first())
    } else {
        None
    }
}

/// The name and the value of the member that `text` starts with, and what follows it.
pub open spec fn first_member_of(text: Seq<char>) -> Option<((Seq<char>, Seq<char>), Seq<char>)> {
    match json_first(text) {
        Some((key, rest)) => match (json_string(key), past(rest, ':')) {
            (Some(name), Some(rest)) => match json_first(rest) {
                Some((value, rest)) => Some(((name, value), rest)),
                None => None,
            },
            _ => None,
        },
        None => None,
    }
}

/// The members that `text` starts with, separated by commas.
pub open spec fn listed_from(text: Seq<char>) -> Seq<(Seq<char>, Seq<char>)>
    decreases text.len(),
{
    match first_member_of(text) {
        Some((member, rest)) => match past(rest, ',') {
            Some(more) => if more.len() < text.len() {
                seq![member] + listed_from(more)
            } else {
                seq![member]
            },
            None => seq![member],
        },
        None => Seq::empty(),
    }
}

/// The members of the object that `text` is, in order; one that occurs more than once is
/// listed as often.
pub open spec fn json_listed(text: Seq<char>) -> Seq<(Seq<char>, Seq<char>)> {
    match past(text, '{') {
        Some(rest) => listed_from(rest),
        None => Seq::empty(),
    }
}

/// Whether a list has more than one member of this name.
pub open spec fn repeats(list: Seq<(Seq<char>, Seq<char>)>, name: Seq<char>) -> bool {
    exists|i: int, j: int|
        #![trigger list[i], list[j]]
        0 <= i < j < list.len() && list[i].0 == name && list[j].0 == name
}

/// Whether the object that `text` is lists each of its members once.
pub open spec fn lists_once(text: Seq<char>) -> bool {
    let list = json_listed(text);
    let members = json_members(text)->0;
    &&& forall|i: int, j: int|
        #![trigger list[i], list[j]]
        0 <= i < j < list.len() ==> list[i].0 != list[j].0
    &&& forall|i: int|
        0 <= i < list.len() ==> members.contains_key((#[trigger] list[i]).0)
            && members[list[i].0] == list[i].1
}

/// The strings that pairs stand for, in order.
pub open spec fn pairs_list(pairs: Seq<(String, String)>) -> Seq<(Seq<char>, Seq<char>)> {
    Seq::new(pairs.len(), |i: int| (pairs[i].0@, pairs[i].1@))
}

/// The rows of a string and a flag, as a mapping.
pub open spec fn flagged_map(rows: Seq<(String, (String, bool))>) -> Map<
    Seq<char>,
    (Seq<char>, bool),
> {
    rows_map(rows).map_values(|v: (String, bool)| (v.0@, v.1))
}

/// Whether reading `text` gives back `rows`: a mapping of strings only where there is no
/// row, and an object for each row, once, whose two members read as the row's string and
/// flag.
pub open spec fn reads_back(
    text: Seq<char>,
    rows: Map<Seq<char>, (Seq<char>, bool)>,
    text_field: Seq<char>,
    flag_field: Seq<char>,
) -> bool {
    &&& json_strings(text) == (if rows.dom() == Set::<Seq<char>>::empty() {
        Some(Map::<Seq<char>, Seq<char>>::empty())
    } else {
        None
    })
    &&& json_members(text) is Some
    &&& json_members(text)->0.dom() == rows.dom()
    &&& lists_once(text)
    &&& forall|k: Seq<char>| #[trigger]
        rows.contains_key(k) ==> member_reads_back(
            json_members(text)->0[k],
            rows[k],
            text_field,
            flag_field,
        )
}

/// Whether reading `text` gives an object of exactly the two members, each once, which
/// read as `row`'s string and flag.
pub open spec fn member_reads_back(
    text: Seq<char>,
    row: (Seq<char>, bool),
    text_field: Seq<char>,
    flag_field: Seq<char>,
) -> bool {
    &&& json_members(text) is Some
    &&& json_members(text)->0.dom() == set![text_field, flag_field]
    &&& lists_once(text)
    &&& json_string(json_members(text)->0[text_field]) == Some(row.0)
    &&& json_flag(json_members(text)->0[flag_field]) == Some(row.1)
}

/// Calls `serde_json::from_str` for a `HashMap<String, String>`: an object whose values
/// are all strings, the last one where a key occurs more than once.
#[verifier::external_body]
pub(crate) fn read_strings(text: &str) -> (found: Option<Vec<(String, String)>>)
    ensures
        match found {
            Some(pairs) => keys_distinct(pairs@) && json_strings(text@) == Some(
                pairs_map(pairs@),
            ),
            None => json_strings(text@) is None,
        },
{
    match serde_json::from_str::<HashMap<String, String>>(text) {
        Ok(map) => Some(map.into_iter().collect()),
        Err(_) => None,
    }
}

/// Calls `serde_json::from_str` for a `HashMap<String, Box<RawValue>>`: an object of any
/// values, each left as its text, the last one where a key occurs more than once.
#[verifier::external_body]
pub(crate) fn read_members(text: &str) -> (found: Option<Vec<(String, String)>>)
    ensures
        match found {
            Some(pairs) => keys_distinct(pairs@) && json_members(text@) == Some(
                pairs_map(pairs@),
            ),
            None => json_members(text@) is None,
        },
{
    match serde_json::from_str::<HashMap<String, Box<serde_json::value::RawValue>>>(text) {
        Ok(map) => Some(map.into_iter().map(|(k, v)| (k, v.get().to_owned())).collect()),
        Err(_) => None,
    }
}

/// Calls `serde_json::from_str` for a `Vec<Box<RawValue>>`: an array of any values, each
/// left as its text.
#[verifier::external_body]
pub(crate) fn read_elements(text: &str) -> (found: Option<Vec<String>>)
    ensures
        match found {
            Some(elements) => json_elements(text@) == Some(texts(elements@)),
            None => json_elements(text@) is None,
        },
{
    match serde_json::from_str::<Vec<Box<serde_json::value::RawValue>>>(text) {
        Ok(values) => Some(values.into_iter().map(|v| v.get().to_owned()).collect()),
        Err(_) => None,
    }
}

/// Calls `serde_json::Deserializer::from_str` and takes the first `Box<RawValue>` of its
/// `into_iter`: the JSON value that the text starts with, and by `byte_offset` what
/// follows it, which is shorter than the text.
#[verifier::external_body]
pub(crate) fn first_value<'a>(text: &'a str) -> (found: Option<(String, &'a str)>)
    ensures
        match found {
            Some((value, rest)) => json_first(text@) == Some((value@, rest@)) && rest@.len()
                < text@.len(),
            None => json_first(text@) is None,
        },
{
    let mut values = serde_json::Deserializer::from_str(text).into_iter::<
        Box<serde_json::value::RawValue>,
    >();
    match values.next() {
        Some(Ok(value)) => Some((value.get().to_owned(), &text[values.byte_offset()..])),
        _ => None,
    }
}

/// Calls `serde_json::from_str` for a `String`.
#[verifier::external_body]
pub(crate) fn read_string(text: &str) -> (found: Option<String>)
    ensures
        match found {
            Some(s) => json_string(text@) == Some(s@),
            None => json_string(text@) is None,
        },
{
    serde_json::from_str::<String>(text).ok()
}

/// Calls `serde_json::from_str` for a `bool`: the word `true` or `false`, with JSON
/// white space around it or none, and nothing else.
#[verifier::external_body]
pub(crate) fn read_bool(text: &str) -> (found: Option<bool>)
    ensures
        found == json_flag(text@),
{
    serde_json::from_str::<bool>(text).ok()
}

/// Calls `serde_json::to_string_pretty` on one object for each row, under the row's key,
/// made of a string member and a boolean member. It succeeds, since every key is a
/// string and the text is written to memory. The text, ended by a line feed, reads back
/// as the rows, no member being written twice; it holds a mapping of strings to strings
/// only where there is no row.
#[verifier::external_body]
pub(crate) fn write_pretty(
    rows: &Vec<(String, (String, bool))>,
    text_field: &str,
    flag_field: &str,
) -> (written: Option<String>)
    requires
        keys_distinct(rows@),
        text_field@ != flag_field@,
    ensures
        written is Some,
        written->0@ == json_pretty(flagged_map(rows@), text_field@, flag_field@),
        reads_back(
            written->0@.push('\n'),
            flagged_map(rows@),
            text_field@,
            flag_field@,
        ),
{
    let objects: BTreeMap<&str, BTreeMap<&str, serde_json::Value>> = rows.iter().map(
        |(key, (text, flag))|
            {
                let text = (text_field, serde_json::Value::String(text.clone()));
                let flag = (flag_field, serde_json::Value::Bool(*flag));
                (key.as_str(), BTreeMap::from([text, flag]))
            },
    ).collect();
    serde_json::to_string_pretty(&objects).ok()
}

/// The remainder behind a mark is shorter than the text.
proof fn lemma_past_shorter(text: Seq<char>, mark: char)
    ensures
        past(text, mark) is Some ==> past(text, mark)->0.len() < text.len(),
    decreases text.len(),
{
    if text.len() > 0 {
        lemma_past_shorter(text.drop_first(), mark);
    }
}

/// White space in front of a mark is passed over.
proof fn lemma_past_space(text: Seq<char>, mark: char, n: int)
    requires
        0 <= n <= text.len(),
        forall|i: int| 0 <= i < n ==> is_json_space(#[trigger] text[i]),
    ensures
        past(text, mark) == past(text.skip(n), mark),
    decreases n,
{
    if n == 0 {
        assert(text.skip(0) =~= text);
    } else {
        let less = text.drop_first();
        assert forall|i: int| 0 <= i < n - 1 implies is_json_space(#[trigger] less[i]) by {
            assert(less[i] == text[i + 1]);
        }
        lemma_past_space(less, mark, n - 1);
        assert(is_json_space(text[0]));
        assert(less.skip(n - 1) =~= text.skip(n));
    }
}

/// What follows a mark.
fn skip_past<'a>(text: &'a str, mark: char) -> (rest: Option<&'a str>)
    ensures
        match rest {
            Some(rest) => past(text@, mark) == Some(rest@),
            None => past(text@, mark) is None,
        },
{
    let chars = to_chars(text);
    let n: usize = chars.len();
    let mut i: usize = 0;
    while i < n && (chars[i] == ' ' || chars[i] == '\n' || chars[i] == '\t' || chars[i] == '\r')
        invariant
            n == chars@.len(),
            i <= n,
            forall|j: int| 0 <= j < i ==> is_json_space(#[trigger] chars@[j]),
        decreases n - i,
    {
        i += 1;
    }
    proof {
        lemma_past_space(text@, mark, i as int);
    }
    if i < n && chars[i] == mark {
        assert(text@.skip(i as int).drop_first() =~= text@.subrange(i + 1, n as int));
        Some(text.substring_char(i + 1, n))
    } else {
        None
    }
}

/// The name and the value of the member that `text` starts with, and what follows it.
fn first_member<'a>(text: &'a str) -> (found: Option<((String, String), &'a str)>)
    ensures
        match found {
            Some((member, rest)) => first_member_of(text@) == Some(
                ((member.0@, member.1@), rest@),
            ) && rest@.len() < text@.len(),
            None => first_member_of(text@) is None,
        },
{
    let (key, rest) = first_value(text)?;
    let name = read_string(key.as_str())?;
    proof {
        lemma_past_shorter(rest@, ':');
    }
    let rest = skip_past(rest, ':')?;
    let (value, rest) = first_value(rest)?;
    Some(((name, value), rest))
}

/// The members of the object that `text` is, in order.
pub fn list_members(text: &str) -> (list: Vec<(String, String)>)
    ensures
        pairs_list(list@) == json_listed(text@),
{
    let mut list: Vec<(String, String)> = Vec::new();
    let mut rest: &str = match skip_past(text, '{') {
        Some(rest) => rest,
        None => {
            assert(pairs_list(list@) =~= json_listed(text@));
            return list;
        },
    };
    assert(pairs_list(list@) + listed_from(rest@) =~= json_listed(text@));
    loop
        invariant
            json_listed(text@) == pairs_list(list@) + listed_from(rest@),
        decreases rest@.len(),
    {
        let ghost before = pairs_list(list@);
        let (member, tail) = match first_member(rest) {
            Some(found) => found,
            None => {
                assert(before + listed_from(rest@) =~= before);
                return list;
            },
        };
        let ghost pair = (member.0@, member.1@);
        let more = skip_past(tail, ',');
        list.push(member);
        proof {
            lemma_past_shorter(tail@, ',');
            assert(pairs_list(list@) =~= before.push(pair));
        }
        match more {
            Some(more) => {
                assert(before + (seq![pair] + listed_from(more@)) =~= pairs_list(list@)
                    + listed_from(more@));
                rest = more;
            },
            None => {
                assert(before + seq![pair] =~= pairs_list(list@));
                return list;
            },
        }
    }
}

/// Whether a list has more than one member of this name.
pub fn has_repeat(list: &Vec<(String, String)>, name: &str) -> (repeat: bool)
    ensures
        repeat == repeats(pairs_list(list@), name@),
{
    let ghost all = pairs_list(list@);
    let n: usize = list.len();
    let mut seen: Option<usize> = None;
    let mut i: usize = 0;
    while i < n
        invariant
            n == list@.len(),
            i <= n,
            all == pairs_list(list@),
            match seen {
                Some(first) => first < i && all[first as int].0 == name@ && forall|j: int|
                    0 <= j < i && j != first ==> (#[trigger] all[j]).0 != name@,
                None => forall|j: int| 0 <= j < i ==> (#[trigger] all[j]).0 != name@,
            },
        decreases n - i,
    {
        if same_text(list[i].0.as_str(), name) {
            assert(all[i as int].0 == name@);
            if seen.is_some() {
                return true;
            }
            seen = Some(i);
        }
        i += 1;
    }
    false
}

/// The value that pairs give to a name.
pub fn member<'a>(pairs: &'a Vec<(String, String)>, name: &str) -> (found: Option<&'a String>)
    requires
        keys_distinct(pairs@),
    ensures
        match found {
            Some(value) => pairs_map(pairs@).contains_key(name@) && pairs_map(pairs@)[name@]
                == value@,
            None => !pairs_map(pairs@).contains_key(name@),
        },
{
    let n: usize = pairs.len();
    let mut i: usize = 0;
    while i < n
        invariant
            keys_distinct(pairs@),
            n == pairs@.len(),
            i <= n,
            forall|j: int| 0 <= j < i ==> (#[trigger] pairs@[j]).0@ != name@,
        decreases n - i,
    {
        if same_text(pairs[i].0.as_str(), name) {
            proof {
                lemma_row_in_map(pairs@, i as int);
            }
            return Some(&pairs[i].1);
        }
        i += 1;
    }
    proof {
        if rows_map(pairs@).contains_key(name@) {
            let j = lemma_map_has_row(pairs@, name@);
        }
    }
    None
}

/// A mark is found behind JSON white space only, and what follows it is the rest of the text.
pub proof fn law_mark_stands_behind_space(text: Seq<char>, mark: char, n: int)
    requires
        !is_json_space(mark),
        0 <= n <= text.len(),
        forall|i: int| 0 <= i < n ==> is_json_space(#[trigger] text[i]),
    ensures
        n == text.len() ==> past(text, mark) is None,
        n < text.len() && text[n] == mark ==> past(text, mark) == Some(text.skip(n + 1)),
        n < text.len() && !is_json_space(text[n]) && text[n] != mark ==> past(text, mark) is None,
        forall|c: char| #[trigger]
            is_json_space(c) <==> c == ' ' || c == '\n' || c == '\t' || c == '\r',
{
    lemma_past_space(text, mark, n);
    let rest = text.skip(n);
    if n < text.len() {
        assert(rest[0] == text[n]);
        assert(rest.drop_first() =~= text.skip(n + 1));
    }
}

/// An object's members are listed one by one: the first, and behind a comma the others. A
/// text without a brace, or without a member behind it, lists none.
pub proof fn law_members_are_listed_one_by_one(
    text: Seq<char>,
    inner: Seq<char>,
    key: Seq<char>,
    name: Seq<char>,
    behind_key: Seq<char>,
    at_value: Seq<char>,
    value: Seq<char>,
    rest: Seq<char>,
    more: Seq<char>,
)
    ensures
        past(text, '{') is None ==> json_listed(text).len() == 0,
        past(text, '{') == Some(inner) ==> json_listed(text) == listed_from(inner),
        json_first(inner) is None ==> listed_from(inner).len() == 0,
        json_first(inner) == Some((key, behind_key)) && json_string(key) == Some(name) && past(
            behind_key,
            ':',
        ) == Some(at_value) && json_first(at_value) == Some((value, rest)) ==> {
            &&& past(rest, ',') is None ==> listed_from(inner) == seq![(name, value)]
            &&& past(rest, ',') == Some(more) && more.len() < inner.len() ==> listed_from(inner)
                == seq![(name, value)] + listed_from(more)
        },
{
}

/// A name is repeated where a second member of it comes behind a first.
pub proof fn law_repeats_by_the_second_member(
    list: Seq<(Seq<char>, Seq<char>)>,
    member: (Seq<char>, Seq<char>),
    name: Seq<char>,
)
    ensures
        list.len() <= 1 ==> !repeats(list, name),
        repeats(list.push(member), name) <==> repeats(list, name) || (member.0 == name && exists|
            i: int,
        | 0 <= i < list.len() && (#[trigger] list[i]).0 == name),
{
    let longer = list.push(member);
    if repeats(longer, name) {
        let (i, j) = choose|i: int, j: int|
            #![trigger longer[i], longer[j]]
            0 <= i < j < longer.len() && longer[i].0 == name && longer[j].0 == name;
        assert(list[i] == longer[i]);
        if j < list.len() {
            assert(list[j] == longer[j]);
        }
    }
    if repeats(list, name) {
        let (i, j) = choose|i: int, j: int|
            #![trigger list[i], list[j]]
            0 <= i < j < list.len() && list[i].0 == name && list[j].0 == name;
        assert(longer[i] == list[i] && longer[j] == list[j]);
    }
    if member.0 == name && exists|i: int| 0 <= i < list.len() && (#[trigger] list[i]).0 == name {
        let i = choose|i: int| 0 <= i < list.len() && (#[trigger] list[i]).0 == name;
        assert(longer[i] == list[i]);
        assert(longer[list.len() as int] == member);
    }
}

/// What the functions on members return: the members as they are listed, whether two of them
/// have a name, and the value of a name.
pub proof fn law_member_functions(
    text: &str,
    list: Vec<(String, String)>,
    any: &Vec<(String, String)>,
    pairs: &Vec<(String, String)>,
    name: &str,
    repeat: bool,
    found: Option<&String>,
    i: int,
    j: int,
)
    requires
        call_ensures(list_members, (text,), list),
        call_ensures(has_repeat, (any, name), repeat),
        call_ensures(member, (pairs, name), found),
        keys_distinct(pairs@),
    ensures
        list@.len() == json_listed(text@).len(),
        0 <= i < list@.len() ==> (list@[i].0@, list@[i].1@) == json_listed(text@)[i],
        0 <= i < j < any@.len() && any@[i].0@ == name@ && any@[j].0@ == name@ ==> repeat,
        repeat ==> exists|a: int, b: int|
            0 <= a < b < any@.len() && (#[trigger] any@[a]).0@ == name@ && (#[trigger] any@[b]).0@
                == name@,
        0 <= i < pairs@.len() && pairs@[i].0@ == name@ ==> found is Some && found->0@
            == pairs@[i].1@,
        found is Some ==> exists|k: int|
            0 <= k < pairs@.len() && (#[trigger] pairs@[k]).0@ == name@ && pairs@[k].1@
                == found->0@,
{
    assert(pairs_list(list@).len() == list@.len());
    if 0 <= i < list@.len() {
        assert(pairs_list(list@)[i] == (list@[i].0@, list@[i].1@));
    }
    let all = pairs_list(any@);
    if 0 <= i < j < any@.len() && any@[i].0@ == name@ && any@[j].0@ == name@ {
        assert(all[i].0 == name@ && all[j].0 == name@);
    }
    if repeat {
        let (a, b) = choose|a: int, b: int|
            #![trigger all[a], all[b]]
            0 <= a < b < all.len() && all[a].0 == name@ && all[b].0 == name@;
        assert(any@[a].0@ == name@ && any@[b].0@ == name@);
    }
    if 0 <= i < pairs@.len() && pairs@[i].0@ == name@ {
        lemma_row_in_map(pairs@, i);
    }
    if found is Some {
        let k = lemma_map_has_row(pairs@, name@);
        lemma_row_in_map(pairs@, k);
    }
}

} // verus!
