//! Lists of strings, and what they hold.
use crate::text::same;
use vstd::prelude::*;

verus! {

/// The contents of a list of strings.
pub open spec fn texts(v: Seq<String>) -> Seq<Seq<char>> {
    v.map_values(|s: String| s@)
}

/// The contents of a list of lists of strings.
pub open spec fn text_lists(v: Seq<Vec<String>>) -> Seq<Seq<Seq<char>>> {
    v.map_values(|l: Vec<String>| texts(l@))
}

/// The contents of an optional string.
pub open spec fn opt_text(o: Option<String>) -> Option<Seq<char>> {
    match o {
        Some(s) => Some(s@),
        None => None,
    }
}

/// The contents of a list of key/value pairs.
pub open spec fn text_pairs(v: Seq<(String, String)>) -> Seq<(Seq<char>, Seq<char>)> {
    v.map_values(|p: (String, String)| (p.0@, p.1@))
}

pub broadcast proof fn lemma_texts_push(v: Seq<String>, s: String)
    ensures
        #[trigger] texts(v.push(s)) == texts(v).push(s@),
{
    assert(texts(v.push(s)) =~= texts(v).push(s@));
}

pub broadcast proof fn lemma_texts_add(a: Seq<String>, b: Seq<String>)
    ensures
        #[trigger] texts(a + b) == texts(a) + texts(b),
{
    assert(texts(a + b) =~= texts(a) + texts(b));
}

/// A copy of a list of strings.
pub fn copy_texts(v: &Vec<String>) -> (r: Vec<String>)
    ensures
        texts(r@) == texts(v@),
{
    let mut r: Vec<String> = Vec::new();
    let mut i: usize = 0;
    while i < v.len()
        invariant
            i <= v@.len(),
            texts(r@) == texts(v@.take(i as int)),
        decreases v@.len() - i,
    {
        broadcast use lemma_texts_push;

        r.push(v[i].clone());
        i += 1;
        assert(v@.take(i as int) =~= v@.take(i - 1).push(v@[i - 1]));
    }
    assert(v@.take(i as int) =~= v@);
    r
}

/// A copy of an optional string.
pub fn copy_opt(o: &Option<String>) -> (r: Option<String>)
    ensures
        opt_text(r) == opt_text(*o),
{
    match o {
        Some(s) => Some(s.clone()),
        None => None,
    }
}

/// The value of the first pair of that key.
pub open spec fn first_value(pairs: Seq<(Seq<char>, Seq<char>)>, key: Seq<char>) -> Option<
    Seq<char>,
>
    decreases pairs.len(),
{
    if pairs.len() == 0 {
        None
    } else if pairs[0].0 == key {
        Some(pairs[0].1)
    } else {
        first_value(pairs.drop_first(), key)
    }
}

/// A copy of the value of the first pair called `key`.
pub fn find_value(pairs: &Vec<(String, String)>, key: &str) -> (r: Option<String>)
    ensures
        opt_text(r) == first_value(text_pairs(pairs@), key@),
{
    let ghost all = text_pairs(pairs@);
    let mut i: usize = 0;
    assert(all.skip(0) =~= all);
    while i < pairs.len()
        invariant
            i <= pairs@.len(),
            all == text_pairs(pairs@),
            first_value(all, key@) == first_value(all.skip(i as int), key@),
        decreases pairs@.len() - i,
    {
        assert(all[i as int] == (pairs@[i as int].0@, pairs@[i as int].1@));
        if same(pairs[i].0.as_str(), key) {
            return Some(pairs[i].1.clone());
        }
        assert(all.skip(i as int).drop_first() =~= all.skip(i + 1));
        i += 1;
    }
    None
}

// --- argument lists ---

/// A command line under construction.
pub struct Args {
    list: Vec<String>,
}

impl View for Args {
    type V = Seq<Seq<char>>;

    closed spec fn view(&self) -> Seq<Seq<char>> {
        texts(self.list@)
    }
}

impl Args {
    /// An empty command line.
    pub fn new() -> (r: Args)
        ensures
            r@ == Seq::<Seq<char>>::empty(),
    {
        let r = Args { list: Vec::new() };
        assert(texts(r.list@) =~= seq![]);
        r
    }

    /// Adds one argument at the end.
    pub fn add_text(&mut self, arg: &str)
        ensures
            final(self)@ == old(self)@.push(arg@),
    {
        self.add_string(arg.to_owned());
    }

    /// Adds one argument at the end.
    pub fn add_string(&mut self, arg: String)
        ensures
            final(self)@ == old(self)@.push(arg@),
    {
        broadcast use lemma_texts_push;

        self.list.push(arg);
    }

    /// Adds a flag and its value at the end.
    pub fn add_flag(&mut self, flag: &str, value: &str)
        ensures
            final(self)@ == old(self)@ + seq![flag@, value@],
    {
        self.add_text(flag);
        self.add_text(value);
        assert(self@ =~= old(self)@ + seq![flag@, value@]);
    }

    /// Adds a list of arguments at the end.
    pub fn add_list(&mut self, args: &Vec<String>)
        ensures
            final(self)@ == old(self)@ + texts(args@),
    {
        let mut i: usize = 0;
        assert(texts(args@).take(0) =~= seq![]);
        assert(self@ =~= old(self)@ + texts(args@).take(0));
        while i < args.len()
            invariant
                i <= args@.len(),
                self@ == old(self)@ + texts(args@).take(i as int),
            decreases args@.len() - i,
        {
            self.add_text(args[i].as_str());
            assert(texts(args@).take(i + 1) =~= texts(args@).take(i as int).push(
                args@[i as int]@,
            ));
            assert(self@ =~= old(self)@ + texts(args@).take(i + 1));
            i += 1;
        }
        assert(texts(args@).take(i as int) =~= texts(args@));
    }

    /// Adds `flag` and one of `values`, for each of them in turn.
    pub fn add_flags(&mut self, flag: &str, values: &Vec<String>)
        ensures
            final(self)@ == old(self)@ + flagged(flag@, texts(values@)),
    {
        let mut i: usize = 0;
        assert(texts(values@).take(0) =~= seq![]);
        assert(self@ =~= old(self)@ + flagged(flag@, texts(values@).take(0)));
        while i < values.len()
            invariant
                i <= values@.len(),
                self@ == old(self)@ + flagged(flag@, texts(values@).take(i as int)),
            decreases values@.len() - i,
        {
            self.add_flag(flag, values[i].as_str());
            assert(texts(values@).take(i + 1).drop_last() =~= texts(values@).take(i as int));
            assert(self@ =~= old(self)@ + flagged(flag@, texts(values@).take(i + 1)));
            i += 1;
        }
        assert(texts(values@).take(i as int) =~= texts(values@));
    }

    /// The finished command line.
    pub fn into_list(self) -> (r: Vec<String>)
        ensures
            texts(r@) == self@,
    {
        self.list
    }
}

/// `flag` and a value, for each of `values` in turn.
pub open spec fn flagged(flag: Seq<char>, values: Seq<Seq<char>>) -> Seq<Seq<char>>
    decreases values.len(),
{
    if values.len() == 0 {
        seq![]
    } else {
        flagged(flag, values.drop_last()) + seq![flag, values.last()]
    }
}

// --- laws ---

/// The value that is found under a key is that of the first pair with this key.
pub proof fn law_first_value(pairs: Seq<(Seq<char>, Seq<char>)>, key: Seq<char>) -> (i: int)
    ensures
        0 <= i <= pairs.len(),
        forall|j: int| 0 <= j < i ==> (#[trigger] pairs[j]).0 != key,
        i < pairs.len() ==> pairs[i].0 == key && first_value(pairs, key) == Some(pairs[i].1),
        i == pairs.len() ==> first_value(pairs, key) is None,
    decreases pairs.len(),
{
    if pairs.len() == 0 || pairs[0].0 == key {
        0
    } else {
        let rest = pairs.drop_first();
        let i = law_first_value(rest, key);
        assert forall|j: int| 0 <= j < i + 1 implies (#[trigger] pairs[j]).0 != key by {
            if j > 0 {
                assert(pairs[j] == rest[j - 1]);
            }
        }
        if i < rest.len() {
            assert(pairs[i + 1] == rest[i]);
        }
        i + 1
    }
}

/// Whether a flag and its value stand on a command line, the flag at place `k`.
pub open spec fn flag_at(line: Seq<Seq<char>>, k: int, flag: Seq<char>, value: Seq<char>) -> bool {
    0 <= k < line.len() - 1 && line[k] == flag && line[k + 1] == value
}

/// Every value stands behind a flag of its own, in the order of the values, and nothing else is
/// there.
pub proof fn law_flagged(flag: Seq<char>, values: Seq<Seq<char>>)
    ensures
        flagged(flag, values).len() == 2 * values.len(),
        forall|i: int|
            0 <= i < values.len() ==> flag_at(
                flagged(flag, values),
                2 * i,
                flag,
                #[trigger] values[i],
            ),
    decreases values.len(),
{
    if values.len() > 0 {
        let rest = values.drop_last();
        law_flagged(flag, rest);
        assert forall|i: int| 0 <= i < values.len() implies flag_at(
            flagged(flag, values),
            2 * i,
            flag,
            #[trigger] values[i],
        ) by {
            if i < rest.len() {
                assert(rest[i] == values[i]);
                assert(flag_at(flagged(flag, rest), 2 * i, flag, rest[i]));
            }
        }
    }
}

} // verus!
