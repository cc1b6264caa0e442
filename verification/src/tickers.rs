//! The topic set of a subscription: a list of ticker symbols that is never
//! empty and holds no symbol twice.

use crate::error::{ParseError, ParseFault};
use crate::text::{
    chars_of, is_free_of, join, join_chars, lemma_split_join, same_chars, split, split_chars,
    string_of, texts, trim, trim_chars, upper, upper_chars, views, Separator,
};
use nonempty::NonEmpty;
use vstd::prelude::*;

verus! {

#[verifier::external_type_specification]
#[verifier::external_body]
#[verifier::reject_recursive_types(T)]
pub struct ExNonEmpty<T>(NonEmpty<T>);

/// The items of a non-empty list, first to last.
pub uninterp spec fn items_of(list: NonEmpty<String>) -> Seq<Seq<char>>;

/// `NonEmpty::new` makes the list of one item.
#[verifier::external_body]
fn list_of_one(item: String) -> (list: NonEmpty<String>)
    ensures
        items_of(list) == seq![item@],
{
    NonEmpty::new(item)
}

/// `NonEmpty::from_vec` gives no list for an empty vector, and else the list
/// of the vector's items in their order.
#[verifier::external_body]
fn list_from_vec(items: Vec<String>) -> (r: Option<NonEmpty<String>>)
    ensures
        match r {
            Some(list) => items.len() > 0 && items_of(list) == texts(items@),
            None => items.len() == 0,
        },
{
    NonEmpty::from_vec(items)
}

/// `NonEmpty::len` counts the items: the head and the tail, so at least one.
#[verifier::external_body]
fn list_len(list: &NonEmpty<String>) -> (n: usize)
    ensures
        n == items_of(*list).len(),
        n >= 1,
{
    list.len()
}

/// `NonEmpty::get` hands out the item at `index`, counted from the head, or
/// nothing where the list is shorter.
#[verifier::external_body]
fn list_get(list: &NonEmpty<String>, index: usize) -> (r: Option<&String>)
    ensures
        match r {
            Some(item) => index < items_of(*list).len() && item@ == items_of(*list)[index as int],
            None => index >= items_of(*list).len(),
        },
{
    list.get(index)
}

/// The clone of a `NonEmpty` holds clones of its items, in their order.
#[verifier::external_body]
fn list_clone(list: &NonEmpty<String>) -> (r: NonEmpty<String>)
    ensures
        items_of(r) == items_of(*list),
{
    list.clone()
}

/// The character that separates the topics of a list.
pub const TICKER_SEPARATOR: char = ',';

/// What one segment of a topic list stands for: the segment without the
/// whitespace around it, in uppercase.
pub open spec fn normalize_topic(segment: Seq<char>) -> Seq<char> {
    upper(trim(segment))
}

/// The topics that a list of segments names: each segment normalized, blank
/// ones dropped, and of equal ones only the first kept.
pub open spec fn collect_topics(segments: Seq<Seq<char>>) -> Seq<Seq<char>>
    decreases segments.len(),
{
    if segments.len() == 0 {
        Seq::empty()
    } else {
        let before = collect_topics(segments.drop_last());
        let topic = normalize_topic(segments.last());
        if topic.len() == 0 || before.contains(topic) {
            before
        } else {
            before.push(topic)
        }
    }
}

/// Whether every segment is blank: empty, or whitespace only.
pub open spec fn all_blank(segments: Seq<Seq<char>>) -> bool {
    forall|i: int| 0 <= i < segments.len() ==> trim(#[trigger] segments[i]).len() == 0
}

/// The topics that the text of a topic list names.
pub open spec fn topics_of(s: Seq<char>) -> Seq<Seq<char>> {
    collect_topics(split(s, Separator::Char(TICKER_SEPARATOR)))
}

/// What parsing a topic list gives: its topics, where there is at least one.
pub open spec fn parse_topics(s: Seq<char>) -> Result<Seq<Seq<char>>, ParseFault> {
    if topics_of(s).len() > 0 {
        Ok(topics_of(s))
    } else {
        Err(ParseFault::NoValidTickers)
    }
}

/// The collected topics are distinct and none is blank; each is the normal
/// form of a segment, and the normal form of every segment that is not blank
/// is among them.
pub proof fn lemma_collect_topics(segments: Seq<Seq<char>>)
    ensures
        collect_topics(segments).no_duplicates(),
        forall|i: int|
            0 <= i < collect_topics(segments).len() ==> (#[trigger] collect_topics(
                segments,
            )[i]).len() > 0,
        forall|t: Seq<char>| #[trigger]
            collect_topics(segments).contains(t) <==> t.len() > 0 && exists|j: int|
                0 <= j < segments.len() && normalize_topic(#[trigger] segments[j]) == t,
    decreases segments.len(),
{
    let all = collect_topics(segments);
    if segments.len() > 0 {
        let init = segments.drop_last();
        let before = collect_topics(init);
        let topic = normalize_topic(segments.last());
        lemma_collect_topics(init);
        assert forall|t: Seq<char>| #[trigger]
            all.contains(t) <==> t.len() > 0 && exists|j: int|
                0 <= j < segments.len() && normalize_topic(#[trigger] segments[j]) == t by {
            if all.contains(t) {
                if before.contains(t) {
                    let j = choose|j: int|
                        0 <= j < init.len() && normalize_topic(#[trigger] init[j]) == t;
                    assert(segments[j] == init[j]);
                } else {
                    let i = choose|i: int| 0 <= i < all.len() && all[i] == t;
                    if i < before.len() {
                        assert(before[i] == t);
                    }
                    assert(t == topic);
                    assert(normalize_topic(segments[segments.len() - 1]) == t);
                }
            }
            if t.len() > 0 && exists|j: int|
                0 <= j < segments.len() && normalize_topic(#[trigger] segments[j]) == t {
                let j = choose|j: int|
                    0 <= j < segments.len() && normalize_topic(#[trigger] segments[j]) == t;
                if j < init.len() {
                    assert(init[j] == segments[j]);
                    assert(before.contains(t));
                    let i = choose|i: int| 0 <= i < before.len() && before[i] == t;
                    assert(all[i] == t);
                } else {
                    assert(t == topic);
                    if !before.contains(t) {
                        assert(all[all.len() - 1] == t);
                    }
                }
            }
        }
    }
}

/// A non-empty list of distinct ticker symbols, in the order in which they
/// were given.
#[derive(Debug, PartialEq, Eq)]
pub struct Tickers(NonEmpty<String>);

impl View for Tickers {
    type V = Seq<Seq<char>>;

    closed spec fn view(&self) -> Seq<Seq<char>> {
        items_of(self.0)
    }
}

impl Clone for Tickers {
    fn clone(&self) -> (r: Self)
        ensures
            r@ == self@,
    {
        proof {
            use_type_invariant(self);
        }
        Tickers(list_clone(&self.0))
    }
}

impl Tickers {
    #[verifier::type_invariant]
    closed spec fn distinct_and_some(self) -> bool {
        self@.len() >= 1 && self@.no_duplicates()
    }

    /// The set of the single topic `ticker`, in uppercase.
    pub fn one(ticker: &str) -> (r: Self)
        ensures
            r@ == seq![upper(ticker@)],
    {
        let chars = chars_of(ticker);
        let shout = upper_chars(chars.as_slice());
        let list = list_of_one(string_of(shout.as_slice()));
        Tickers(list)
    }

    /// The topics in their order: at least one, and none twice.
    pub fn iter(&self) -> (r: Vec<String>)
        ensures
            texts(r@) == self@,
            r@.len() >= 1,
            self@.no_duplicates(),
    {
        proof {
            use_type_invariant(self);
        }
        let n = list_len(&self.0);
        let mut out: Vec<String> = Vec::new();
        let mut i: usize = 0;
        while i < n
            invariant
                i <= n,
                n == self@.len(),
                texts(out@) == self@.take(i as int),
            decreases n - i,
        {
            let ghost before = texts(out@);
            match list_get(&self.0, i) {
                Some(item) => {
                    out.push(item.clone());
                    assert(texts(out@) == before.push(self@[i as int]));
                },
                None => {},
            }
            i += 1;
        }
        assert(self@.take(n as int) == self@);
        out
    }

    /// Whether `ticker` is one of the topics, letter for letter.
    pub fn contains(&self, ticker: &str) -> (r: bool)
        ensures
            r == self@.contains(ticker@),
    {
        let n = list_len(&self.0);
        let wanted = chars_of(ticker);
        let mut i: usize = 0;
        while i < n
            invariant
                i <= n,
                n == self@.len(),
                wanted@ == ticker@,
                forall|j: int| 0 <= j < i ==> self@[j] != ticker@,
            decreases n - i,
        {
            match list_get(&self.0, i) {
                Some(item) => {
                    let have = chars_of(item.as_str());
                    if same_chars(have.as_slice(), wanted.as_slice()) {
                        assert(self@[i as int] == ticker@);
                        return true;
                    }
                },
                None => {},
            }
            i += 1;
        }
        false
    }

    /// The number of topics.
    pub fn len(&self) -> (n: usize)
        ensures
            n == self@.len(),
            n >= 1,
    {
        list_len(&self.0)
    }

    /// A topic set is never empty.
    pub fn is_empty(&self) -> (r: bool)
        ensures
            !r,
            self@.len() >= 1,
    {
        list_len(&self.0) == 0
    }

    /// Reads a comma-separated topic list. Each segment is trimmed and put in
    /// uppercase; blank segments and repetitions are dropped. A list that
    /// names no topic is refused.
    pub fn parse(s: &str) -> (r: Result<Tickers, ParseError>)
        ensures
            match r {
                Ok(t) => parse_topics(s@) == Ok::<Seq<Seq<char>>, ParseFault>(t@),
                Err(e) => parse_topics(s@) == Err::<Seq<Seq<char>>, ParseFault>(e@),
            },
            r is Err <==> all_blank(split(s@, Separator::Char(TICKER_SEPARATOR))),
    {
        let chars = chars_of(s);
        let segments = split_chars(chars.as_slice(), Separator::Char(TICKER_SEPARATOR));
        let mut found: Vec<Vec<char>> = Vec::new();
        let mut i: usize = 0;
        while i < segments.len()
            invariant
                i <= segments.len(),
                views(found@) == collect_topics(views(segments@).take(i as int)),
                found@.len() == 0 <==> all_blank(views(segments@).take(i as int)),
            decreases segments.len() - i,
        {
            proof {
                let all = views(segments@);
                assert(all.take(i + 1).drop_last() == all.take(i as int));
                assert(all.take(i + 1).last() == segments@[i as int]@);
            }
            let ghost before = views(found@);
            let ghost seen = views(segments@).take(i as int);
            let ghost next = views(segments@).take(i + 1);
            let bare = trim_chars(segments[i].as_slice());
            let topic = upper_chars(bare.as_slice());
            if topic.len() > 0 && !holds(&found, &topic) {
                found.push(topic);
                assert(views(found@) == before.push(topic@));
            }
            proof {
                assert(next[i as int] == segments@[i as int]@);
                assert(bare@.len() == 0 <==> topic@.len() == 0);
                if all_blank(next) {
                    assert forall|j: int| 0 <= j < seen.len() implies trim(
                        #[trigger] seen[j],
                    ).len() == 0 by {
                        assert(seen[j] == next[j]);
                    }
                    assert(trim(next[i as int]).len() == 0);
                }
                if all_blank(seen) && bare@.len() == 0 {
                    assert forall|j: int| 0 <= j < next.len() implies trim(
                        #[trigger] next[j],
                    ).len() == 0 by {
                        if j < i {
                            assert(seen[j] == next[j]);
                        }
                    }
                }
                if topic@.len() > 0 && before.contains(topic@) {
                    assert(before.len() > 0);
                }
            }
            i += 1;
        }
        assert(views(segments@).take(segments.len() as int) == views(segments@));
        let mut items: Vec<String> = Vec::new();
        let mut k: usize = 0;
        while k < found.len()
            invariant
                k <= found.len(),
                texts(items@) == views(found@).take(k as int),
            decreases found.len() - k,
        {
            let ghost before = texts(items@);
            items.push(string_of(found[k].as_slice()));
            assert(texts(items@) == before.push(found@[k as int]@));
            k += 1;
        }
        assert(views(found@).take(found.len() as int) == views(found@));
        proof {
            lemma_collect_topics(split(s@, Separator::Char(TICKER_SEPARATOR)));
        }
        match list_from_vec(items) {
            Some(list) => Ok(Tickers(list)),
            None => Err(ParseError::NoValidTickers),
        }
    }

    /// The topics joined by commas.
    pub fn to_string(&self) -> (r: String)
        ensures
            r@ == join(self@, TICKER_SEPARATOR),
    {
        let items = self.iter();
        let mut parts: Vec<Vec<char>> = Vec::new();
        let mut i: usize = 0;
        while i < items.len()
            invariant
                i <= items.len(),
                views(parts@) == texts(items@).take(i as int),
            decreases items.len() - i,
        {
            let ghost before = views(parts@);
            parts.push(chars_of(items[i].as_str()));
            assert(views(parts@) == before.push(items@[i as int]@));
            i += 1;
        }
        assert(texts(items@).take(items.len() as int) == texts(items@));
        let joined = join_chars(&parts, TICKER_SEPARATOR);
        string_of(joined.as_slice())
    }
}

/// Whether `topic` is among `found`.
fn holds(found: &Vec<Vec<char>>, topic: &Vec<char>) -> (r: bool)
    ensures
        r == views(found@).contains(topic@),
{
    let mut i: usize = 0;
    while i < found.len()
        invariant
            i <= found.len(),
            forall|j: int| 0 <= j < i ==> views(found@)[j] != topic@,
        decreases found.len() - i,
    {
        if same_chars(found[i].as_slice(), topic.as_slice()) {
            assert(views(found@)[i as int] == topic@);
            return true;
        }
        i += 1;
    }
    false
}

impl std::str::FromStr for Tickers {
    type Err = ParseError;

    fn from_str(s: &str) -> (r: Result<Self, ParseError>)
        ensures
            match r {
                Ok(t) => parse_topics(s@) == Ok::<Seq<Seq<char>>, ParseFault>(t@),
                Err(e) => parse_topics(s@) == Err::<Seq<Seq<char>>, ParseFault>(e@),
            },
    {
        Tickers::parse(s)
    }
}

/// Writing a list of topics down with commas and reading it back gives the
/// topics in normal form: trimmed, in uppercase, without blanks and without
/// repetitions. It holds for every list in which no topic holds a comma.
pub proof fn law_topics_round_trip(topics: Seq<Seq<char>>)
    requires
        forall|i: int|
            0 <= i < topics.len() ==> is_free_of(
                #[trigger] topics[i],
                Separator::Char(TICKER_SEPARATOR),
            ),
    ensures
        topics_of(join(topics, TICKER_SEPARATOR)) == collect_topics(topics),
{
    if topics.len() >= 1 {
        lemma_split_join(topics, TICKER_SEPARATOR);
    } else {
        let blank = seq![Seq::<char>::empty()];
        assert(split(join(topics, TICKER_SEPARATOR), Separator::Char(TICKER_SEPARATOR)) == blank);
        assert(blank.drop_last() == Seq::<Seq<char>>::empty());
        assert(join(topics, TICKER_SEPARATOR) == Seq::<char>::empty());
        assert(trim(Seq::<char>::empty()) == Seq::<char>::empty());
        assert(upper(Seq::<char>::empty()) == Seq::<char>::empty());
        assert(blank.last() == Seq::<char>::empty());
        assert(normalize_topic(blank.last()).len() == 0);
        assert(collect_topics(blank.drop_last()) == Seq::<Seq<char>>::empty());
        assert(collect_topics(blank) == Seq::<Seq<char>>::empty());
    }
}

} // verus!
