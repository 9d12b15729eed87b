//! Reading settings out of a module's JSON configuration.
//!
//! Every reader is stated as a function from the configuration to the setting
//! or to the message that refuses it.
use vstd::prelude::*;
use vstd::string::*;

use crate::json::{Json, JsonModel, Node, NodeModel};
use crate::text;

verus! {

// ---------------------------------------------------------------------------
// Lists of texts
// ---------------------------------------------------------------------------

/// The texts of a list of strings.
pub open spec fn texts(list: Seq<String>) -> Seq<Seq<char>> {
    list.map_values(|s: String| s@)
}

/// The texts of a list of pairs of strings.
pub open spec fn text_pairs(list: Seq<(String, String)>) -> Seq<(Seq<char>, Seq<char>)> {
    list.map_values(|p: (String, String)| (p.0@, p.1@))
}

/// The text of an optional string.
pub open spec fn text_opt(s: Option<String>) -> Option<Seq<char>> {
    match s {
        Some(s) => Some(s@),
        None => None,
    }
}

pub proof fn lemma_texts_push(list: Seq<String>, s: String)
    ensures
        texts(list.push(s)) == texts(list).push(s@),
{
    assert(texts(list.push(s)) =~= texts(list).push(s@));
}

pub proof fn lemma_text_pairs_push(list: Seq<(String, String)>, p: (String, String))
    ensures
        text_pairs(list.push(p)) == text_pairs(list).push((p.0@, p.1@)),
{
    assert(text_pairs(list.push(p)) =~= text_pairs(list).push((p.0@, p.1@)));
}

// ---------------------------------------------------------------------------
// All or the first refusal
// ---------------------------------------------------------------------------

/// What `read` makes of every item, or the message of the first item that it
/// refuses.
pub open spec fn collect<A, B>(
    items: Seq<A>,
    read: spec_fn(A) -> Result<B, Seq<char>>,
) -> Result<Seq<B>, Seq<char>>
    decreases items.len(),
{
    if items.len() == 0 {
        Ok(Seq::empty())
    } else {
        match collect(items.drop_last(), read) {
            Ok(done) => match read(items.last()) {
                Ok(b) => Ok(done.push(b)),
                Err(e) => Err(e),
            },
            Err(e) => Err(e),
        }
    }
}

/// One more item.
pub proof fn lemma_collect_step<A, B>(
    items: Seq<A>,
    read: spec_fn(A) -> Result<B, Seq<char>>,
    i: int,
)
    requires
        0 <= i < items.len(),
    ensures
        collect(items.take(i + 1), read) == (match collect(items.take(i), read) {
            Ok(done) => match read(items[i]) {
                Ok(b) => Ok(done.push(b)),
                Err(e) => Err(e),
            },
            Err(e) => Err(e),
        }),
{
    assert(items.take(i + 1).drop_last() =~= items.take(i));
}

/// A refused item refuses the whole list.
pub proof fn lemma_collect_refusal<A, B>(
    items: Seq<A>,
    read: spec_fn(A) -> Result<B, Seq<char>>,
    n: int,
)
    requires
        0 <= n <= items.len(),
        collect(items.take(n), read) is Err,
    ensures
        collect(items, read) == collect(items.take(n), read),
    decreases items.len() - n,
{
    if n < items.len() {
        lemma_collect_step(items, read, n);
        lemma_collect_refusal(items, read, n + 1);
    } else {
        assert(items.take(n) =~= items);
    }
}

/// An accepted list has one result per item.
pub proof fn lemma_collect_items<A, B>(items: Seq<A>, read: spec_fn(A) -> Result<B, Seq<char>>)
    ensures
        match collect(items, read) {
            Ok(done) => {
                &&& done.len() == items.len()
                &&& forall|i: int|
                    0 <= i < items.len() ==> read(#[trigger] items[i]) == Ok::<B, Seq<char>>(done[i])
            },
            Err(_) => true,
        },
    decreases items.len(),
{
    if items.len() > 0 {
        lemma_collect_items(items.drop_last(), read);
        if collect(items, read) is Ok {
            let done = collect(items, read)->Ok_0;
            assert forall|i: int| 0 <= i < items.len() implies read(#[trigger] items[i]) == Ok::<
                B,
                Seq<char>,
            >(done[i]) by {
                if i < items.len() - 1 {
                    assert(items.drop_last()[i] == items[i]);
                }
            }
        }
    }
}

// ---------------------------------------------------------------------------
// Messages
// ---------------------------------------------------------------------------

/// "`key` must be what, got got".
pub open spec fn must_be(key: Seq<char>, what: Seq<char>, got: Seq<char>) -> Seq<char> {
    "`"@ + key + "` must be "@ + what + ", got "@ + got
}

/// "`key` entries must be what, got got".
pub open spec fn entries_must_be(key: Seq<char>, what: Seq<char>, got: Seq<char>) -> Seq<char> {
    "`"@ + key + "` entries must be "@ + what + ", got "@ + got
}

pub fn say_must_be(key: &str, what: &str, got: &str) -> (r: String)
    ensures
        r@ == must_be(key@, what@, got@),
{
    "`".to_owned().concat(key).concat("` must be ").concat(what).concat(", got ").concat(got)
}

pub fn say_entries_must_be(key: &str, what: &str, got: &str) -> (r: String)
    ensures
        r@ == entries_must_be(key@, what@, got@),
{
    "`".to_owned().concat(key).concat("` entries must be ").concat(what).concat(", got ").concat(
        got,
    )
}

// ---------------------------------------------------------------------------
// Single settings
// ---------------------------------------------------------------------------

/// A boolean setting.
pub open spec fn bool_or(config: JsonModel, key: Seq<char>, default: bool) -> Result<
    bool,
    Seq<char>,
> {
    match config.setting(key) {
        None => Ok(default),
        Some(v) => match v.node {
            NodeModel::Bool(b) => Ok(b),
            _ => Err(must_be(key, "a boolean"@, v.text)),
        },
    }
}

/// A text setting.
pub open spec fn text_or(config: JsonModel, key: Seq<char>, default: Option<Seq<char>>) -> Result<
    Option<Seq<char>>,
    Seq<char>,
> {
    match config.setting(key) {
        None => Ok(default),
        Some(v) => match v.as_text() {
            Some(s) => Ok(Some(s)),
            None => Err(must_be(key, "a string"@, v.text)),
        },
    }
}

/// The same setting, where an empty text counts as no text.
pub open spec fn filled(setting: Result<Option<Seq<char>>, Seq<char>>) -> Result<
    Option<Seq<char>>,
    Seq<char>,
> {
    match setting {
        Ok(Some(s)) => Ok(
            if s.len() == 0 {
                None
            } else {
                Some(s)
            },
        ),
        other => other,
    }
}

/// A setting that is a non-negative integer.
pub open spec fn u64_or(config: JsonModel, key: Seq<char>, default: u64) -> Result<
    u64,
    Seq<char>,
> {
    match config.setting(key) {
        None => Ok(default),
        Some(v) => match v.as_u64() {
            Some(n) => Ok(n),
            None => Err(must_be(key, "a non-negative integer"@, v.text)),
        },
    }
}

/// Reads a boolean setting.
pub fn opt_bool(config: &Json, key: &str, default: bool) -> (r: Result<bool, String>)
    ensures
        match r {
            Ok(b) => bool_or(config@, key@, default) == Ok::<bool, Seq<char>>(b),
            Err(e) => bool_or(config@, key@, default) == Err::<bool, Seq<char>>(e@),
        },
{
    match config.setting(key) {
        None => Ok(default),
        Some(v) => match &v.node {
            Node::Bool(b) => Ok(*b),
            _ => Err(say_must_be(key, "a boolean", v.text.as_str())),
        },
    }
}

/// Reads a text setting that may have no default.
pub fn opt_text(config: &Json, key: &str) -> (r: Result<Option<String>, String>)
    ensures
        match r {
            Ok(s) => text_or(config@, key@, None) == Ok::<_, Seq<char>>(text_opt(s)),
            Err(e) => text_or(config@, key@, None) == Err::<Option<Seq<char>>, _>(e@),
        },
{
    match config.setting(key) {
        None => Ok(None),
        Some(v) => match v.as_text() {
            Some(s) => Ok(Some(s.to_owned())),
            None => Err(say_must_be(key, "a string", v.text.as_str())),
        },
    }
}

/// Reads a text setting with a default.
pub fn opt_string(config: &Json, key: &str, default: &str) -> (r: Result<String, String>)
    ensures
        match r {
            Ok(s) => text_or(config@, key@, Some(default@)) == Ok::<_, Seq<char>>(Some(s@)),
            Err(e) => text_or(config@, key@, Some(default@)) == Err::<Option<Seq<char>>, _>(e@),
        },
{
    match opt_text(config, key) {
        Ok(Some(s)) => Ok(s),
        Ok(None) => Ok(default.to_owned()),
        Err(e) => Err(e),
    }
}

/// An empty text counts as no text.
pub fn non_empty(s: Option<String>) -> (r: Option<String>)
    ensures
        filled(Ok(text_opt(s))) == Ok::<_, Seq<char>>(text_opt(r)),
{
    match s {
        Some(s) => if s.as_str().is_empty() {
            None
        } else {
            Some(s)
        },
        None => None,
    }
}

/// Reads a text setting, where an empty text counts as no text.
pub fn opt_str(config: &Json, key: &str) -> (r: Result<Option<String>, String>)
    ensures
        match r {
            Ok(s) => filled(text_or(config@, key@, None)) == Ok::<_, Seq<char>>(text_opt(s)),
            Err(e) => filled(text_or(config@, key@, None)) == Err::<Option<Seq<char>>, _>(e@),
        },
{
    match opt_text(config, key) {
        Ok(s) => Ok(non_empty(s)),
        Err(e) => Err(e),
    }
}

/// Reads a setting that is a non-negative integer.
pub fn opt_u64(config: &Json, key: &str, default: u64) -> (r: Result<u64, String>)
    ensures
        match r {
            Ok(n) => u64_or(config@, key@, default) == Ok::<u64, Seq<char>>(n),
            Err(e) => u64_or(config@, key@, default) == Err::<u64, Seq<char>>(e@),
        },
{
    match config.setting(key) {
        None => Ok(default),
        Some(v) => match v.as_u64() {
            Some(n) => Ok(n),
            None => Err(say_must_be(key, "a non-negative integer", v.text.as_str())),
        },
    }
}

// ---------------------------------------------------------------------------
// Lists of settings
// ---------------------------------------------------------------------------

/// One entry of a list of texts.
pub open spec fn text_entry(key: Seq<char>) -> spec_fn(JsonModel) -> Result<Seq<char>, Seq<char>> {
    |v: JsonModel|
        match v.as_text() {
            Some(s) => Ok(s),
            None => Err(entries_must_be(key, "strings"@, v.text)),
        }
}

/// Reads a list of texts.
pub fn read_strings(items: &Vec<Json>, key: &str) -> (r: Result<Vec<String>, String>)
    ensures
        match r {
            Ok(list) => collect(items@.map_values(|v: Json| v@), text_entry(key@)) == Ok::<
                _,
                Seq<char>,
            >(texts(list@)),
            Err(e) => collect(items@.map_values(|v: Json| v@), text_entry(key@)) == Err::<
                Seq<Seq<char>>,
                _,
            >(e@),
        },
{
    let ghost all = items@.map_values(|v: Json| v@);
    let ghost read = text_entry(key@);
    let mut out: Vec<String> = Vec::new();
    let mut i: usize = 0;
    assert(texts(out@) =~= Seq::empty());
    while i < items.len()
        invariant
            i <= items.len(),
            all == items@.map_values(|v: Json| v@),
            read == text_entry(key@),
            collect(all.take(i as int), read) == Ok::<_, Seq<char>>(texts(out@)),
        decreases items.len() - i,
    {
        proof {
            lemma_collect_step(all, read, i as int);
        }
        match items[i].as_text() {
            Some(s) => {
                let owned: String = s.to_owned();
                proof {
                    lemma_texts_push(out@, owned);
                }
                out.push(owned);
            },
            None => {
                proof {
                    lemma_collect_refusal(all, read, i + 1);
                }
                return Err(say_entries_must_be(key, "strings", items[i].text.as_str()));
            },
        }
        i += 1;
    }
    assert(all.take(i as int) =~= all);
    Ok(out)
}

// ---------------------------------------------------------------------------
// What readers come to
// ---------------------------------------------------------------------------

/// A list is read item by item, in order and completely, where every item can be
/// read; otherwise the first item that cannot gives the message.
pub proof fn law_lists_are_read_whole<A, B>(
    items: Seq<A>,
    read: spec_fn(A) -> Result<B, Seq<char>>,
    i: int,
)
    ensures
        (forall|j: int| 0 <= j < items.len() ==> read(#[trigger] items[j]) is Ok) ==> {
            &&& collect(items, read) is Ok
            &&& collect(items, read)->Ok_0.len() == items.len()
        },
        collect(items, read) is Ok ==> collect(items, read)->Ok_0.len() == items.len(),
        collect(items, read) is Ok && 0 <= i < items.len() ==> read(items[i]) == Ok::<
            B,
            Seq<char>,
        >(collect(items, read)->Ok_0[i]),
        0 <= i < items.len() && read(items[i]) is Err && (forall|j: int|
            0 <= j < i ==> read(#[trigger] items[j]) is Ok) ==> collect(items, read) == Err::<
            Seq<B>,
            Seq<char>,
        >(read(items[i])->Err_0),
    decreases items.len(),
{
    lemma_collect_items(items, read);
    if items.len() > 0 {
        let before = items.drop_last();
        law_lists_are_read_whole(before, read, i);
        assert(forall|j: int| 0 <= j < before.len() ==> #[trigger] before[j] == items[j]);
        assert(items.last() == items[items.len() - 1]);
        if forall|j: int| 0 <= j < items.len() ==> read(#[trigger] items[j]) is Ok {
            assert forall|j: int| 0 <= j < before.len() implies read(
                #[trigger] before[j],
            ) is Ok by {
                assert(before[j] == items[j]);
            }
        }
        if 0 <= i < items.len() && read(items[i]) is Err && (forall|j: int|
            0 <= j < i ==> read(#[trigger] items[j]) is Ok) {
            assert forall|j: int| 0 <= j < i && j < before.len() implies read(
                #[trigger] before[j],
            ) is Ok by {
                assert(before[j] == items[j]);
            }
            if i < before.len() {
                assert(before[i] == items[i]);
            } else {
                law_lists_are_read_whole(before, read, 0);
            }
        }
    }
}

/// A setting that is absent or `null` takes its default; one of the right type is
/// taken as it is; one of another type is refused.
pub proof fn law_single_settings(
    config: JsonModel,
    key: Seq<char>,
    b: bool,
    n: u64,
    s: Option<Seq<char>>,
)
    ensures
        config.setting(key) is None ==> bool_or(config, key, b) == Ok::<bool, Seq<char>>(b)
            && u64_or(config, key, n) == Ok::<u64, Seq<char>>(n) && text_or(config, key, s) == Ok::<
            Option<Seq<char>>,
            Seq<char>,
        >(s),
        config.setting(key) is Some ==> ({
            let node = config.setting(key)->0.node;
            &&& match node {
                NodeModel::Bool(x) => bool_or(config, key, b) == Ok::<bool, Seq<char>>(x),
                _ => bool_or(config, key, b) is Err,
            }
            &&& match node {
                NodeModel::Text(x) => text_or(config, key, s) == Ok::<
                    Option<Seq<char>>,
                    Seq<char>,
                >(Some(x)),
                _ => text_or(config, key, s) is Err,
            }
            &&& match node {
                NodeModel::Number(x) => match x.unsigned {
                    Some(m) => u64_or(config, key, n) == Ok::<u64, Seq<char>>(m),
                    None => u64_or(config, key, n) is Err,
                },
                _ => u64_or(config, key, n) is Err,
            }
        }),
{
}

/// Where an empty text counts as none, every other text counts as itself.
pub proof fn law_filled_texts(s: Seq<char>, e: Seq<char>)
    ensures
        filled(Ok(None)) == Ok::<Option<Seq<char>>, Seq<char>>(None),
        s.len() == 0 ==> filled(Ok(Some(s))) == Ok::<Option<Seq<char>>, Seq<char>>(None),
        s.len() > 0 ==> filled(Ok(Some(s))) == Ok::<Option<Seq<char>>, Seq<char>>(Some(s)),
        filled(Err(e)) == Err::<Option<Seq<char>>, Seq<char>>(e),
{
}

/// A list of texts takes texts alone, each as it is.
pub proof fn law_text_entries(key: Seq<char>, v: JsonModel)
    ensures
        match v.node {
            NodeModel::Text(s) => text_entry(key)(v) == Ok::<Seq<char>, Seq<char>>(s),
            _ => text_entry(key)(v) is Err,
        },
{
}

/// A list is taken exactly where every item can be read.
pub proof fn law_lists_are_taken_whole<A, B>(
    items: Seq<A>,
    read: spec_fn(A) -> Result<B, Seq<char>>,
)
    ensures
        collect(items, read) is Ok <==> forall|j: int|
            0 <= j < items.len() ==> read(#[trigger] items[j]) is Ok,
{
    law_lists_are_read_whole(items, read, 0);
    if collect(items, read) is Ok {
        assert forall|j: int| 0 <= j < items.len() implies read(#[trigger] items[j]) is Ok by {
            law_lists_are_read_whole(items, read, j);
        }
    }
}

/// A list of texts is taken exactly where every item is a text.
pub proof fn law_lists_of_texts(items: Seq<JsonModel>, key: Seq<char>)
    ensures
        collect(items, text_entry(key)) is Ok <==> forall|j: int|
            0 <= j < items.len() ==> (#[trigger] items[j]).node is Text,
{
    law_lists_are_taken_whole(items, text_entry(key));
    assert forall|j: int| 0 <= j < items.len() implies (text_entry(key)(#[trigger] items[j]) is Ok
        <==> items[j].node is Text) by {
        law_text_entries(key, items[j]);
    }
}

/// A refused setting is named, with the type that it should have and its notation.
pub proof fn law_refusals_name_the_setting(
    config: JsonModel,
    key: Seq<char>,
    b: bool,
    n: u64,
    s: Option<Seq<char>>,
)
    ensures
        config.setting(key) is Some ==> ({
            let got = config.setting(key)->0.text;
            &&& bool_or(config, key, b) is Err ==> bool_or(config, key, b)->Err_0 == "`"@ + key
                + "` must be "@ + "a boolean"@ + ", got "@ + got
            &&& text_or(config, key, s) is Err ==> text_or(config, key, s)->Err_0 == "`"@ + key
                + "` must be "@ + "a string"@ + ", got "@ + got
            &&& u64_or(config, key, n) is Err ==> u64_or(config, key, n)->Err_0 == "`"@ + key
                + "` must be "@ + "a non-negative integer"@ + ", got "@ + got
        }),
{
}

} // verus!
