//! The options of a feature.
use crate::json::{
    find_member, law_lookup, lookup, map_entries, map_held, map_insert, map_new, member_models,
    put, Json, JsonView,
};
use crate::lists::{opt_text, text_pairs};
use crate::text::{
    alphanumeric, concat, is_alphanumeric, is_digit, law_letter_case, law_trimmed_start, to_chars,
    to_upper, trim_start, trimmed_start, upper, CharClass,
};
use vstd::prelude::*;

verus! {

/// A character as it may stand in an identifier.
pub open spec fn word_char(c: char) -> char {
    if is_alphanumeric(c) || c == '_' {
        c
    } else {
        '_'
    }
}

/// The name of the environment variable for an option: characters other than ASCII letters,
/// digits and `_` become `_`, a leading run of digits and underscores becomes one `_`, and the
/// letters become upper case.
pub open spec fn safe_identifier(name: Seq<char>) -> Seq<char> {
    let words = name.map_values(|c: char| word_char(c));
    let rest = trimmed_start(words, CharClass::DigitOrUnderscore);
    let normalized = if rest.len() != words.len() {
        "_"@ + rest
    } else {
        words
    };
    normalized.map_values(|c: char| upper(c))
}

/// The environment variable name of an option.
pub fn safe_id(name: &str) -> (r: String)
    ensures
        r@ == safe_identifier(name@),
{
    let chars = to_chars(name);
    let mut words = String::new();
    let mut i: usize = 0;
    while i < chars.len()
        invariant
            i <= chars@.len(),
            chars@ == name@,
            words@ =~= name@.take(i as int).map_values(|c: char| word_char(c)),
        decreases chars@.len() - i,
    {
        let c = chars[i];
        if alphanumeric(c) || c == '_' {
            words.push(c);
        } else {
            words.push('_');
        }
        i += 1;
    }
    assert(name@.take(i as int) =~= name@);
    let rest = trim_start(words.as_str(), CharClass::DigitOrUnderscore);
    let rest_chars = to_chars(rest.as_str());
    let normalized = if rest_chars.len() != chars.len() {
        concat("_", rest.as_str())
    } else {
        words
    };
    let lowered = to_chars(normalized.as_str());
    let mut r = String::new();
    let mut k: usize = 0;
    while k < lowered.len()
        invariant
            k <= lowered@.len(),
            lowered@ == normalized@,
            r@ =~= normalized@.take(k as int).map_values(|c: char| upper(c)),
        decreases lowered@.len() - k,
    {
        r.push(to_upper(lowered[k]));
        k += 1;
    }
    assert(normalized@.take(k as int) =~= normalized@);
    r
}

/// A JSON value as the text of an option: a string by its contents, null as the empty text, any
/// other as it is printed.
pub open spec fn value_text(v: JsonView) -> Seq<char> {
    match v {
        JsonView::Text(s) => s,
        JsonView::Bool(b) => if b {
            "true"@
        } else {
            "false"@
        },
        JsonView::Number(n) => n,
        JsonView::Null => seq![],
        JsonView::Array(_, text) => text,
        JsonView::Object(_, text) => text,
    }
}

/// A JSON value as the text of an option.
pub fn value_to_string(v: &Json) -> (r: String)
    ensures
        r@ == value_text(v.model()),
{
    match v {
        Json::Text(s) => s.clone(),
        Json::Bool(b) => if *b {
            "true".to_owned()
        } else {
            "false".to_owned()
        },
        Json::Number(n) => n.clone(),
        Json::Null => String::new(),
        Json::Array(_, text) => text.clone(),
        Json::Object(_, text) => text.clone(),
    }
}

/// The main option of a feature: `version` where it is defined, else the only one.
pub open spec fn main_option_of(defs: Seq<(Seq<char>, JsonView)>) -> Option<Seq<char>> {
    if lookup(defs, "version"@) is Some {
        Some("version"@)
    } else if defs.len() == 1 {
        Some(defs[0].0)
    } else {
        None
    }
}

/// The name of the "main" option a scalar feature value maps to: `version` if defined, else the
/// only option if there is exactly one.
pub fn main_option(defs: &Vec<(String, Json)>) -> (r: Option<String>)
    ensures
        opt_text(r) == main_option_of(member_models(defs@)),
{
    if find_member(defs, "version").is_some() {
        Some("version".to_owned())
    } else if defs.len() == 1 {
        Some(defs[0].0.clone())
    } else {
        None
    }
}

/// The defaults of the options that have one, in the order of their definition.
pub open spec fn default_values(defs: Seq<(Seq<char>, JsonView)>) -> Seq<(Seq<char>, JsonView)>
    decreases defs.len(),
{
    if defs.len() == 0 {
        seq![]
    } else {
        let before = default_values(defs.drop_last());
        match defs.last().1.member("default"@) {
            Some(default) => put(before, defs.last().0, default),
            None => before,
        }
    }
}

/// `values` with those of `members` put in, one after the other.
pub open spec fn overridden(
    values: Seq<(Seq<char>, JsonView)>,
    members: Seq<(Seq<char>, JsonView)>,
) -> Seq<(Seq<char>, JsonView)>
    decreases members.len(),
{
    if members.len() == 0 {
        values
    } else {
        put(overridden(values, members.drop_last()), members.last().0, members.last().1)
    }
}

/// The values of a feature's options: the defaults, with what the user gave for single options,
/// or for the main option where the user gave a string or a number.
pub open spec fn merged(defs: Seq<(Seq<char>, JsonView)>, user: JsonView) -> Seq<
    (Seq<char>, JsonView),
> {
    let defaults = default_values(defs);
    match user {
        JsonView::Object(members, _) => overridden(defaults, members),
        JsonView::Text(_) | JsonView::Number(_) => match main_option_of(defs) {
            Some(main) => put(defaults, main, user),
            None => defaults,
        },
        _ => defaults,
    }
}

/// Option values as environment variables.
pub open spec fn option_pairs(values: Seq<(Seq<char>, JsonView)>) -> Seq<(Seq<char>, Seq<char>)> {
    values.map_values(|e: (Seq<char>, JsonView)| (safe_identifier(e.0), value_text(e.1)))
}

/// The values that the entries stand for: each entry's number is a place in `values`.
spec fn stand_for(entries: Seq<(Seq<char>, u64)>, values: Seq<&Json>) -> Seq<
    (Seq<char>, JsonView),
> {
    entries.map_values(|e: (Seq<char>, u64)| (e.0, values[e.1 as int].model()))
}

/// Whether every entry's number is a place in a list of that length.
spec fn within(entries: Seq<(Seq<char>, u64)>, len: nat) -> bool {
    forall|i: int| 0 <= i < entries.len() ==> (#[trigger] entries[i]).1 < len
}

proof fn lemma_stand_for_put(
    entries: Seq<(Seq<char>, u64)>,
    values: Seq<&Json>,
    key: Seq<char>,
    value: &Json,
)
    requires
        within(entries, values.len()),
        values.len() <= u64::MAX,
    ensures
        within(put(entries, key, values.len() as u64), values.len() + 1),
        stand_for(put(entries, key, values.len() as u64), values.push(value)) == put(
            stand_for(entries, values),
            key,
            value.model(),
        ),
    decreases entries.len(),
{
    let n = values.len() as u64;
    let more = values.push(value);
    let after = put(entries, key, n);
    if entries.len() == 0 {
        assert(stand_for(after, more) =~= put(stand_for(entries, values), key, value.model()));
    } else if entries[0].0 == key {
        assert(stand_for(entries, values)[0].0 == key);
        assert(stand_for(after, more) =~= put(stand_for(entries, values), key, value.model()));
    } else {
        let rest = entries.drop_first();
        assert forall|i: int| 0 <= i < rest.len() implies (#[trigger] rest[i]).1 < values.len() by {
            assert(rest[i] == entries[i + 1]);
        }
        lemma_stand_for_put(rest, values, key, value);
        assert(after == seq![entries[0]] + put(rest, key, n));
        assert forall|i: int| 0 <= i < after.len() implies (#[trigger] after[i]).1 < values.len()
            + 1 by {
            if i > 0 {
                assert(after[i] == put(rest, key, n)[i - 1]);
            } else {
                assert(after[0] == entries[0]);
            }
        }
        assert(stand_for(entries, values).drop_first() =~= stand_for(rest, values));
        assert(stand_for(after, more) =~= seq![stand_for(entries, values)[0]] + stand_for(
            put(rest, key, n),
            more,
        ));
    }
}

/// Option values under construction: a map from names to places in a list of values.
struct OptionValues<'a> {
    map: serde_json::Map<String, serde_json::Value>,
    values: Vec<&'a Json>,
}

impl<'a> OptionValues<'a> {
    spec fn wf(self) -> bool {
        within(map_held(self.map), self.values@.len())
    }

    spec fn model(self) -> Seq<(Seq<char>, JsonView)> {
        stand_for(map_held(self.map), self.values@)
    }

    fn new() -> (r: OptionValues<'a>)
        ensures
            r.wf(),
            r.model() == Seq::<(Seq<char>, JsonView)>::empty(),
    {
        let r = OptionValues { map: map_new(), values: Vec::new() };
        assert(r.model() =~= Seq::<(Seq<char>, JsonView)>::empty());
        r
    }

    fn set(&mut self, key: &String, value: &'a Json)
        requires
            old(self).wf(),
        ensures
            final(self).wf(),
            final(self).model() == put(old(self).model(), key@, value.model()),
    {
        let n = self.values.len();
        proof {
            lemma_stand_for_put(map_held(self.map), self.values@, key@, value);
        }
        map_insert(&mut self.map, key.clone(), n as u64);
        self.values.push(value);
    }

    fn to_pairs(&self) -> (r: Vec<(String, String)>)
        requires
            self.wf(),
        ensures
            text_pairs(r@) == option_pairs(self.model()),
    {
        let entries = map_entries(&self.map);
        let ghost held = map_held(self.map);
        let mut r: Vec<(String, String)> = Vec::new();
        let mut i: usize = 0;
        while i < entries.len()
            invariant
                i <= entries@.len(),
                held == map_held(self.map),
                entries@.map_values(|e: (String, u64)| (e.0@, e.1)) == held,
                within(held, self.values@.len()),
                r@.len() == i,
                text_pairs(r@) =~= option_pairs(self.model()).take(i as int),
            decreases entries@.len() - i,
        {
            let ghost before = r@;
            assert(held[i as int] == (entries@[i as int].0@, entries@[i as int].1));
            let name = safe_id(entries[i].0.as_str());
            assert(held[i as int].1 < self.values.len());
            let place = entries[i].1 as usize;
            let text = value_to_string(self.values[place]);
            assert(self.model()[i as int] == (held[i as int].0, self.values@[place as int].model()));
            assert(option_pairs(self.model())[i as int] == (name@, text@));
            r.push((name, text));
            assert(text_pairs(r@) =~= text_pairs(before).push(
                option_pairs(self.model())[i as int],
            ));
            i += 1;
        }
        assert(option_pairs(self.model()).take(i as int) =~= option_pairs(self.model()));
        r
    }
}

/// Merges a feature's option definitions (with their defaults) with the value that the user gave,
/// and returns the environment variables to export before `install.sh` runs.
pub fn merge_options(defs: &Vec<(String, Json)>, user: &Json) -> (r: Vec<(String, String)>)
    ensures
        text_pairs(r@) == option_pairs(merged(member_models(defs@), user.model())),
{
    let ghost all = member_models(defs@);
    let mut values = OptionValues::new();
    let mut i: usize = 0;
    assert(default_values(all.take(0)) =~= seq![]);
    while i < defs.len()
        invariant
            i <= defs@.len(),
            all == member_models(defs@),
            values.wf(),
            values.model() == default_values(all.take(i as int)),
        decreases defs@.len() - i,
    {
        assert(all.take(i + 1).drop_last() =~= all.take(i as int));
        assert(all[i as int] == (defs@[i as int].0@, defs@[i as int].1.model()));
        if let Some(default) = defs[i].1.member("default") {
            values.set(&defs[i].0, default);
        }
        i += 1;
    }
    assert(all.take(i as int) =~= all);
    let ghost defaults = default_values(all);
    match user {
        Json::Object(members, _) => {
            let ghost given = member_models(members@);
            let mut k: usize = 0;
            assert(overridden(defaults, given.take(0)) =~= defaults);
            while k < members.len()
                invariant
                    k <= members@.len(),
                    given == member_models(members@),
                    values.wf(),
                    values.model() == overridden(defaults, given.take(k as int)),
                decreases members@.len() - k,
            {
                assert(given.take(k + 1).drop_last() =~= given.take(k as int));
                assert(given[k as int] == (members@[k as int].0@, members@[k as int].1.model()));
                values.set(&members[k].0, &members[k].1);
                k += 1;
            }
            assert(given.take(k as int) =~= given);
        },
        Json::Text(_) | Json::Number(_) => {
            if let Some(main) = main_option(defs) {
                values.set(&main, user);
            }
        },
        _ => {},
    }
    values.to_pairs()
}

// --- laws ---

/// The name of an option's environment variable holds upper-case ASCII letters, digits and `_`
/// only, and does not begin with a digit.
pub proof fn law_safe_id_is_identifier(name: Seq<char>)
    ensures
        ({
            let id = safe_identifier(name);
            &&& forall|i: int|
                0 <= i < id.len() ==> is_digit(#[trigger] id[i]) || 'A' <= id[i] <= 'Z' || id[i]
                    == '_'
            &&& id.len() > 0 ==> !is_digit(id[0])
        }),
{
    reveal_strlit("_");
    let words = name.map_values(|c: char| word_char(c));
    law_trimmed_start(words, CharClass::DigitOrUnderscore);
}

/// Such a name stands for itself.
pub proof fn law_safe_id_idempotent(name: Seq<char>)
    ensures
        safe_identifier(safe_identifier(name)) == safe_identifier(name),
{
    reveal_strlit("_");
    let id = safe_identifier(name);
    law_safe_id_is_identifier(name);
    let words = name.map_values(|c: char| word_char(c));
    let rest = trimmed_start(words, CharClass::DigitOrUnderscore);
    law_trimmed_start(words, CharClass::DigitOrUnderscore);
    let again = id.map_values(|c: char| word_char(c));
    assert(again =~= id);
    law_trimmed_start(id, CharClass::DigitOrUnderscore);
    let rest_again = trimmed_start(id, CharClass::DigitOrUnderscore);
    if rest.len() == words.len() {
        if id.len() > 0 {
            assert(words[0] == rest[0]);
            assert(id[0] == upper(words[0]));
        }
        assert(rest_again =~= id);
    } else {
        let tail = rest.map_values(|c: char| upper(c));
        assert(id.drop_first() =~= tail);
        assert(id[0] == '_');
        if tail.len() > 0 {
            assert(tail[0] == upper(rest[0]));
            assert(words.contains(rest[0])) by {
                assert(rest[0] == words[words.len() - rest.len()]);
            }
        }
        assert(rest_again =~= tail) by {
            assert(trimmed_start(tail, CharClass::DigitOrUnderscore) == tail);
        }
        assert("_"@ + rest_again =~= id);
    }
    assert(id.map_values(|c: char| upper(c)) =~= id);
}

/// A value that is put in is the one that is found under its key; the others stay.
pub proof fn law_put_lookup(
    entries: Seq<(Seq<char>, JsonView)>,
    key: Seq<char>,
    value: JsonView,
    other: Seq<char>,
)
    ensures
        lookup(put(entries, key, value), other) == if other == key {
            Some(value)
        } else {
            lookup(entries, other)
        },
    decreases entries.len(),
{
    let after = put(entries, key, value);
    if entries.len() > 0 {
        if entries[0].0 == key {
            assert(after.drop_first() =~= entries.drop_first());
        } else {
            assert(after.drop_first() =~= put(entries.drop_first(), key, value));
            law_put_lookup(entries.drop_first(), key, value, other);
        }
    } else {
        assert(after.drop_first() =~= entries);
    }
}

/// The names of the entries, in order.
pub open spec fn names(entries: Seq<(Seq<char>, JsonView)>) -> Seq<Seq<char>> {
    entries.map_values(|e: (Seq<char>, JsonView)| e.0)
}

/// A value that is put in leaves the names before it and their order as they are; a new name goes
/// to the end.
pub proof fn law_put_order(
    entries: Seq<(Seq<char>, JsonView)>,
    key: Seq<char>,
    value: JsonView,
)
    ensures
        names(put(entries, key, value)) == if names(entries).contains(key) {
            names(entries)
        } else {
            names(entries).push(key)
        },
    decreases entries.len(),
{
    let after = put(entries, key, value);
    if entries.len() == 0 {
        assert(names(after) =~= names(entries).push(key));
    } else if entries[0].0 == key {
        assert(names(entries)[0] == key);
        assert(names(after) =~= names(entries));
    } else {
        let rest = entries.drop_first();
        law_put_order(rest, key, value);
        assert(names(entries) =~= seq![entries[0].0] + names(rest));
        assert(names(after) =~= seq![entries[0].0] + names(put(rest, key, value)));
        if names(rest).contains(key) {
            let i = names(rest).index_of(key);
            assert(names(entries)[i + 1] == key);
        } else {
            assert forall|i: int| 0 <= i < names(entries).len() implies names(entries)[i] != key by {
                if i > 0 {
                    assert(names(rest).contains(names(rest)[i - 1]));
                }
            }
            assert(names(after) =~= names(entries).push(key));
        }
    }
}

/// The value that the user gives for an option is the one that it gets.
pub proof fn law_user_value_wins(
    defs: Seq<(Seq<char>, JsonView)>,
    members: Seq<(Seq<char>, JsonView)>,
    text: Seq<char>,
    i: int,
)
    requires
        0 <= i < members.len(),
        forall|k: int| i < k < members.len() ==> (#[trigger] members[k]).0 != members[i].0,
    ensures
        lookup(merged(defs, JsonView::Object(members, text)), members[i].0) == Some(members[i].1),
{
    lemma_overridden_value(default_values(defs), members, i);
}

proof fn lemma_overridden_value(
    values: Seq<(Seq<char>, JsonView)>,
    members: Seq<(Seq<char>, JsonView)>,
    i: int,
)
    requires
        0 <= i < members.len(),
        forall|k: int| i < k < members.len() ==> (#[trigger] members[k]).0 != members[i].0,
    ensures
        lookup(overridden(values, members), members[i].0) == Some(members[i].1),
    decreases members.len(),
{
    let rest = members.drop_last();
    law_put_lookup(
        overridden(values, rest),
        members.last().0,
        members.last().1,
        members[i].0,
    );
    if i < rest.len() {
        assert(rest[i] == members[i]);
        assert forall|k: int| i < k < rest.len() implies (#[trigger] rest[k]).0 != rest[i].0 by {
            assert(rest[k] == members[k]);
        }
        lemma_overridden_value(values, rest, i);
    }
}

/// An option that the user does not mention keeps its default.
pub proof fn law_default_stays(
    defs: Seq<(Seq<char>, JsonView)>,
    members: Seq<(Seq<char>, JsonView)>,
    text: Seq<char>,
    name: Seq<char>,
)
    requires
        !names(members).contains(name),
    ensures
        lookup(merged(defs, JsonView::Object(members, text)), name) == lookup(
            default_values(defs),
            name,
        ),
{
    lemma_overridden_other(default_values(defs), members, name);
}

proof fn lemma_overridden_other(
    values: Seq<(Seq<char>, JsonView)>,
    members: Seq<(Seq<char>, JsonView)>,
    name: Seq<char>,
)
    requires
        !names(members).contains(name),
    ensures
        lookup(overridden(values, members), name) == lookup(values, name),
    decreases members.len(),
{
    if members.len() > 0 {
        let rest = members.drop_last();
        assert(names(members).last() == members.last().0);
        assert(names(members).contains(members.last().0));
        assert forall|k: int| 0 <= k < names(rest).len() implies names(rest)[k] != name by {
            assert(names(members)[k] == names(rest)[k]);
        }
        law_put_lookup(
            overridden(values, rest),
            members.last().0,
            members.last().1,
            name,
        );
        lemma_overridden_other(values, rest, name);
    }
}

/// The default of an option is that of its definition.
pub proof fn law_default_value(defs: Seq<(Seq<char>, JsonView)>, i: int)
    requires
        0 <= i < defs.len(),
        forall|k: int| i < k < defs.len() ==> (#[trigger] defs[k]).0 != defs[i].0,
        defs[i].1.member("default"@) is Some,
    ensures
        lookup(default_values(defs), defs[i].0) == defs[i].1.member("default"@),
    decreases defs.len(),
{
    let rest = defs.drop_last();
    if let Some(default) = defs.last().1.member("default"@) {
        law_put_lookup(default_values(rest), defs.last().0, default, defs[i].0);
    }
    if i < rest.len() {
        assert(rest[i] == defs[i]);
        assert forall|k: int| i < k < rest.len() implies (#[trigger] rest[k]).0 != rest[i].0 by {
            assert(rest[k] == defs[k]);
        }
        law_default_value(rest, i);
    }
}

/// The options that have a default come first, in the order of their definition, whatever the
/// user gives.
pub proof fn law_definition_order(defs: Seq<(Seq<char>, JsonView)>, user: JsonView)
    ensures
        ({
            let defaults = names(default_values(defs));
            let all = names(merged(defs, user));
            &&& defaults.len() <= all.len()
            &&& all.take(defaults.len() as int) == defaults
        }),
{
    let values = default_values(defs);
    match user {
        JsonView::Object(members, _) => {
            lemma_overridden_order(values, members);
        },
        JsonView::Text(_) | JsonView::Number(_) => {
            if let Some(main) = main_option_of(defs) {
                law_put_order(values, main, user);
            }
        },
        _ => {},
    }
    assert(names(merged(defs, user)).take(names(values).len() as int) =~= names(values));
}

proof fn lemma_overridden_order(
    values: Seq<(Seq<char>, JsonView)>,
    members: Seq<(Seq<char>, JsonView)>,
)
    ensures
        names(values).len() <= names(overridden(values, members)).len(),
        names(overridden(values, members)).take(names(values).len() as int) == names(values),
    decreases members.len(),
{
    if members.len() == 0 {
        assert(names(values).take(names(values).len() as int) =~= names(values));
    } else {
        let rest = members.drop_last();
        lemma_overridden_order(values, rest);
        law_put_order(overridden(values, rest), members.last().0, members.last().1);
        assert(names(overridden(values, members)).take(names(values).len() as int)
            =~= names(values));
    }
}

/// A string or a number sets the main option, if there is one.
pub proof fn law_scalar_sets_main_option(defs: Seq<(Seq<char>, JsonView)>, user: JsonView)
    requires
        user is Text || user is Number,
    ensures
        match main_option_of(defs) {
            Some(main) => lookup(merged(defs, user), main) == Some(user),
            None => merged(defs, user) == default_values(defs),
        },
{
    if let Some(main) = main_option_of(defs) {
        law_put_lookup(default_values(defs), main, user, main);
    }
}

/// `true` and an empty object stand for the defaults.
pub proof fn law_defaults(defs: Seq<(Seq<char>, JsonView)>, text: Seq<char>)
    ensures
        merged(defs, JsonView::Bool(true)) == default_values(defs),
        merged(defs, JsonView::Object(seq![], text)) == default_values(defs),
{
}

/// A string or a number sets the main option alone: every other option keeps its default.
pub proof fn law_scalar_leaves_other_options(
    defs: Seq<(Seq<char>, JsonView)>,
    user: JsonView,
    main: Seq<char>,
    other: Seq<char>,
)
    requires
        user is Text || user is Number,
        main_option_of(defs) == Some(main),
        other != main,
    ensures
        lookup(merged(defs, user), other) == lookup(default_values(defs), other),
        names(merged(defs, user)) == if names(default_values(defs)).contains(main) {
            names(default_values(defs))
        } else {
            names(default_values(defs)).push(main)
        },
{
    law_put_lookup(default_values(defs), main, user, other);
    law_put_order(default_values(defs), main, user);
}

/// A value that is neither an object nor a string or a number stands for the defaults.
pub proof fn law_other_values_mean_defaults(defs: Seq<(Seq<char>, JsonView)>, user: JsonView)
    requires
        user is Null || user is Bool || user is Array,
    ensures
        merged(defs, user) == default_values(defs),
{
}

/// The main option is `version` where it is defined, else the only option; of several others none
/// is.
pub proof fn law_main_option(defs: Seq<(Seq<char>, JsonView)>)
    ensures
        names(defs).contains("version"@) ==> main_option_of(defs) == Some("version"@),
        !names(defs).contains("version"@) && defs.len() == 1 ==> main_option_of(defs) == Some(
            defs[0].0,
        ),
        !names(defs).contains("version"@) && defs.len() != 1 ==> main_option_of(defs) is None,
{
    let i = law_lookup(defs, "version"@);
    if i < defs.len() {
        assert(names(defs)[i] == "version"@);
    } else {
        assert forall|k: int| 0 <= k < names(defs).len() implies names(defs)[k] != "version"@ by {
            assert(names(defs)[k] == defs[k].0);
        }
    }
}

/// An option without a default is not among the defaults.
pub proof fn law_no_default(defs: Seq<(Seq<char>, JsonView)>, name: Seq<char>)
    requires
        forall|i: int|
            0 <= i < defs.len() && (#[trigger] defs[i]).0 == name ==> defs[i].1.member(
                "default"@,
            ) is None,
    ensures
        lookup(default_values(defs), name) is None,
    decreases defs.len(),
{
    if defs.len() > 0 {
        let rest = defs.drop_last();
        assert forall|i: int| 0 <= i < rest.len() && (#[trigger] rest[i]).0 == name implies rest[i]
            .1.member("default"@) is None by {
            assert(rest[i] == defs[i]);
        }
        law_no_default(rest, name);
        assert(defs[defs.len() - 1] == defs.last());
        if let Some(default) = defs.last().1.member("default"@) {
            law_put_lookup(default_values(rest), defs.last().0, default, name);
        }
    }
}

/// The defaults come in the order in which the options are defined: one more definition with a
/// default adds its name at the end, unless it is there.
pub proof fn law_defaults_in_order(
    defs: Seq<(Seq<char>, JsonView)>,
    name: Seq<char>,
    def: JsonView,
)
    ensures
        ({
            let before = names(default_values(defs));
            let after = names(default_values(defs.push((name, def))));
            if def.member("default"@) is Some && !before.contains(name) {
                after == before.push(name)
            } else {
                after == before
            }
        }),
{
    let more = defs.push((name, def));
    assert(more.drop_last() =~= defs);
    if let Some(default) = def.member("default"@) {
        law_put_order(default_values(defs), name, default);
    }
}

/// Options that only the user names follow the others in the order in which they are given: one
/// more adds its name at the end, unless it is there.
pub proof fn law_new_names_follow(
    defs: Seq<(Seq<char>, JsonView)>,
    members: Seq<(Seq<char>, JsonView)>,
    name: Seq<char>,
    value: JsonView,
    text: Seq<char>,
    other_text: Seq<char>,
)
    ensures
        ({
            let before = names(merged(defs, JsonView::Object(members, text)));
            let after = names(
                merged(defs, JsonView::Object(members.push((name, value)), other_text)),
            );
            after == if before.contains(name) {
                before
            } else {
                before.push(name)
            }
        }),
{
    let more = members.push((name, value));
    assert(more.drop_last() =~= members);
    law_put_order(overridden(default_values(defs), members), name, value);
}

/// Every option is exported, under its identifier and with its value as text, in order.
pub proof fn law_every_option_is_exported(values: Seq<(Seq<char>, JsonView)>)
    ensures
        option_pairs(values).len() == values.len(),
        forall|i: int|
            0 <= i < values.len() ==> #[trigger] option_pairs(values)[i] == (
                safe_identifier(values[i].0),
                value_text(values[i].1),
            ),
{
}

/// A string is exported by its contents, a truth value by its name, null as the empty text, and all
/// else as it is printed.
pub proof fn law_value_text(v: JsonView)
    ensures
        match v {
            JsonView::Text(s) => value_text(v) == s,
            JsonView::Bool(true) => value_text(v) == "true"@,
            JsonView::Bool(false) => value_text(v) == "false"@,
            JsonView::Null => value_text(v).len() == 0,
            JsonView::Number(printed) => value_text(v) == printed,
            JsonView::Array(_, printed) => value_text(v) == printed,
            JsonView::Object(_, printed) => value_text(v) == printed,
        },
{
}

/// An identifier in capitals that begins with a letter stands for itself.
pub proof fn law_identifier_is_kept(name: Seq<char>)
    requires
        forall|i: int|
            0 <= i < name.len() ==> is_digit(#[trigger] name[i]) || 'A' <= name[i] <= 'Z' || name[i]
                == '_',
        name.len() > 0 ==> 'A' <= name[0] <= 'Z',
    ensures
        safe_identifier(name) == name,
{
    let words = name.map_values(|c: char| word_char(c));
    assert(words =~= name);
    assert(trimmed_start(name, CharClass::DigitOrUnderscore) == name);
    assert(name.map_values(|c: char| upper(c)) =~= name);
}

/// The case of a letter does not matter, and a character that cannot stand in an identifier counts
/// as `_`.
pub proof fn law_safe_id_by_character(name: Seq<char>, i: int)
    requires
        0 <= i < name.len(),
    ensures
        safe_identifier(name.update(i, upper(name[i]))) == safe_identifier(name),
        !is_alphanumeric(name[i]) ==> safe_identifier(name.update(i, '_')) == safe_identifier(name),
{
    let words = name.map_values(|c: char| word_char(c));
    let rest = trimmed_start(words, CharClass::DigitOrUnderscore);
    law_trimmed_start(words, CharClass::DigitOrUnderscore);
    if !is_alphanumeric(name[i]) {
        assert(name.update(i, '_').map_values(|c: char| word_char(c)) =~= words);
    }
    law_letter_case(name[i]);
    let raised = name.update(i, upper(name[i]));
    let raised_words = raised.map_values(|c: char| word_char(c));
    assert(raised_words =~= words.update(i, upper(words[i])));
    let raised_rest = trimmed_start(raised_words, CharClass::DigitOrUnderscore);
    law_trimmed_start(raised_words, CharClass::DigitOrUnderscore);
    let k = words.len() - rest.len();
    let m = words.len() - raised_rest.len();
    law_letter_case(words[i]);
    assert forall|j: int| 0 <= j < words.len() implies CharClass::DigitOrUnderscore.has_char(
        #[trigger] words[j],
    ) == CharClass::DigitOrUnderscore.has_char(raised_words[j]) by {}
    assert(k == m) by {
        if k < m {
            assert(rest[0] == words[k]);
            assert(CharClass::DigitOrUnderscore.has_char(raised_words[k]));
        } else if m < k {
            assert(raised_rest[0] == raised_words[m]);
            assert(CharClass::DigitOrUnderscore.has_char(words[m]));
        }
    }
    assert(rest.map_values(|c: char| upper(c)) =~= raised_rest.map_values(|c: char| upper(c)));
    assert(words.map_values(|c: char| upper(c)) =~= raised_words.map_values(|c: char| upper(c)));
    assert(("_"@ + rest).map_values(|c: char| upper(c)) =~= ("_"@ + raised_rest).map_values(
        |c: char| upper(c),
    ));
}

/// A run of digits and underscores at the beginning becomes one underscore.
pub proof fn law_safe_id_beginning(front: Seq<char>, name: Seq<char>)
    requires
        front.len() > 0,
        forall|i: int| 0 <= i < front.len() ==> is_digit(#[trigger] front[i]) || front[i] == '_',
        name.len() > 0 ==> is_alphanumeric(name[0]) && !is_digit(name[0]),
    ensures
        safe_identifier(front + name) == seq!['_'] + safe_identifier(name),
{
    reveal_strlit("_");
    let class = CharClass::DigitOrUnderscore;
    let words = name.map_values(|c: char| word_char(c));
    let all = (front + name).map_values(|c: char| word_char(c));
    assert(all =~= front + words);
    law_trimmed_start(words, class);
    law_trimmed_start(all, class);
    let rest = trimmed_start(all, class);
    assert(trimmed_start(words, class) =~= words);
    assert(rest =~= words) by {
        if rest.len() > words.len() {
            assert(rest[0] == all[all.len() - rest.len()]);
            assert(all[all.len() - rest.len()] == front[all.len() - rest.len()]);
        } else if rest.len() < words.len() {
            assert(class.has_char(all[front.len() as int]));
            assert(all[front.len() as int] == words[0]);
        }
    }
    assert(("_"@ + words).map_values(|c: char| upper(c)) =~= seq!['_'] + words.map_values(
        |c: char| upper(c),
    ));
}

} // verus!
