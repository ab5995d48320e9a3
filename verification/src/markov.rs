//! Practice text from a corpus: a table of which word followed each pair of
//! words, and a random walk over it.

use crate::text::chars_of;
use rand::rngs::StdRng;
use rand::Rng;
use vstd::hash_map::StringHashMap;
use vstd::prelude::*;
use vstd::string::*;

verus! {

/// The key of a pair of words: the two with one space between them.
pub open spec fn context_key(first: Seq<char>, second: Seq<char>) -> Seq<char> {
    first + seq![' '] + second
}

/// How many places a corpus has where a word follows a pair of words.
pub open spec fn transition_count(tokens: Seq<Seq<char>>) -> int {
    if tokens.len() >= 2 {
        tokens.len() - 2
    } else {
        0
    }
}

/// The words that follow the pair with key `key` at the first `n` places of
/// the corpus, in the order of the places, each as often as it follows.
pub open spec fn followers_within(tokens: Seq<Seq<char>>, key: Seq<char>, n: int) -> Seq<
    Seq<char>,
>
    decreases n,
{
    if n <= 0 {
        Seq::empty()
    } else {
        let earlier = followers_within(tokens, key, n - 1);
        if context_key(tokens[n - 1], tokens[n]) == key {
            earlier.push(tokens[n + 1])
        } else {
            earlier
        }
    }
}

/// The words that follow the pair with key `key` anywhere in the corpus.
pub open spec fn followers(tokens: Seq<Seq<char>>, key: Seq<char>) -> Seq<Seq<char>> {
    followers_within(tokens, key, transition_count(tokens))
}

/// The transition table of a corpus: each pair of neighbours that a word
/// follows, by its key, with the words that follow it.
pub open spec fn transitions(tokens: Seq<Seq<char>>) -> Map<Seq<char>, Seq<Seq<char>>> {
    Map::new(
        |key: Seq<char>| followers(tokens, key).len() > 0,
        |key: Seq<char>| followers(tokens, key),
    )
}

/// The keys of the pairs at the first `n` places of the corpus, each once,
/// in the order in which they first occur.
pub open spec fn contexts_within(tokens: Seq<Seq<char>>, n: int) -> Seq<Seq<char>>
    decreases n,
{
    if n <= 0 {
        Seq::empty()
    } else {
        let earlier = contexts_within(tokens, n - 1);
        let key = context_key(tokens[n - 1], tokens[n]);
        if earlier.contains(key) {
            earlier
        } else {
            earlier.push(key)
        }
    }
}

/// The keys of a corpus, each once, in the order in which they first occur.
pub open spec fn contexts(tokens: Seq<Seq<char>>) -> Seq<Seq<char>> {
    contexts_within(tokens, transition_count(tokens))
}

/// Where the first space of `s` at or after `from` stands; the length of `s`
/// where there is none.
pub open spec fn space_from(s: Seq<char>, from: int) -> int
    decreases s.len() - from,
{
    if from >= s.len() || s[from] == ' ' {
        from
    } else {
        space_from(s, from + 1)
    }
}

/// The first word of a key: what stands before its first space.
pub open spec fn first_word(key: Seq<char>) -> Seq<char> {
    key.subrange(0, space_from(key, 0))
}

/// The second word of a key: what stands between its first space and the
/// next, or the end. Empty where the key has no space.
pub open spec fn second_word(key: Seq<char>) -> Seq<char> {
    let space = space_from(key, 0);
    if space >= key.len() {
        Seq::empty()
    } else {
        key.subrange(space + 1, space_from(key, space + 1))
    }
}

/// In the table, the word at place `i + 2` of `path` is one of those that
/// follow the two words before it.
pub open spec fn follows(table: Map<Seq<char>, Seq<Seq<char>>>, path: Seq<Seq<char>>, i: int) -> bool {
    &&& table.contains_key(context_key(path[i], path[i + 1]))
    &&& table[context_key(path[i], path[i + 1])].contains(path[i + 2])
}

/// A walk over a table: two words to begin with, taken from one of the
/// keys; then each word one that follows the two before it in the table. It
/// has at most `limit` words besides its last two, and fewer only where
/// nothing follows its last two.
pub open spec fn is_walk(
    table: Map<Seq<char>, Seq<Seq<char>>>,
    keys: Seq<Seq<char>>,
    path: Seq<Seq<char>>,
    limit: int,
) -> bool {
    &&& path.len() >= 2
    &&& path.len() - 2 <= limit || path.len() == 2
    &&& exists|k: int|
        0 <= k < keys.len() && first_word(#[trigger] keys[k]) == path[0] && second_word(keys[k])
            == path[1]
    &&& forall|i: int| 0 <= i < path.len() - 2 ==> #[trigger] follows(table, path, i)
    &&& path.len() - 2 < limit ==> !table.contains_key(
        context_key(path[path.len() - 2], path[path.len() - 1]),
    )
}

/// `words` are what a walk of at most `limit` steps gives out: the walk
/// without its last two words.
pub open spec fn generated(
    table: Map<Seq<char>, Seq<Seq<char>>>,
    keys: Seq<Seq<char>>,
    words: Seq<Seq<char>>,
    limit: int,
) -> bool {
    exists|path: Seq<Seq<char>>| #[trigger]
        is_walk(table, keys, path, limit) && words == path.take(path.len() - 2)
}

/// The keys, the lists of followers and the place of each key fit together:
/// every key has its place and its list, and no list is empty.
pub open spec fn consistent(
    keys: Seq<Seq<char>>,
    lists: Seq<Seq<Seq<char>>>,
    index: Map<Seq<char>, usize>,
) -> bool {
    &&& keys.len() == lists.len()
    &&& forall|j: int|
        0 <= j < keys.len() ==> index.contains_key(#[trigger] keys[j]) && index[keys[j]] == j
    &&& forall|k: Seq<char>| #[trigger]
        index.contains_key(k) ==> index[k] < keys.len() && keys[index[k] as int] == k
    &&& forall|j: int| 0 <= j < lists.len() ==> (#[trigger] lists[j]).len() > 0
}

/// The table that keys, lists and places stand for.
pub open spec fn table_of(lists: Seq<Seq<Seq<char>>>, index: Map<Seq<char>, usize>) -> Map<
    Seq<char>,
    Seq<Seq<char>>,
> {
    Map::new(|k: Seq<char>| index.contains_key(k), |k: Seq<char>| lists[index[k] as int])
}

/// Why no text can be generated.
#[derive(Clone, Copy, Debug, PartialEq, Eq, Structural)]
pub enum MarkovError {
    /// The corpus has fewer than three words, so no word follows a pair.
    CorpusTooSmall,
}

impl MarkovError {
    /// What the message says.
    pub open spec fn message_text(self) -> Seq<char> {
        "Corpus is too small! Text generation requires at least 3 words"@
    }

    /// The message for the user.
    pub fn message(&self) -> (msg: String)
        ensures
            msg@ == self.message_text(),
    {
        String::from_str("Corpus is too small! Text generation requires at least 3 words")
    }
}

/// For each pair of neighbouring words of a corpus, the words that followed
/// it, as often as they did and in the order of the corpus.
pub struct TransitionTable {
    keys: Vec<String>,
    followers: Vec<Vec<String>>,
    index: StringHashMap<usize>,
}

impl View for TransitionTable {
    type V = Map<Seq<char>, Seq<Seq<char>>>;

    closed spec fn view(&self) -> Map<Seq<char>, Seq<Seq<char>>> {
        table_of(self.followers.deep_view(), self.index@)
    }
}

impl TransitionTable {
    #[verifier::type_invariant]
    spec fn inv(&self) -> bool {
        &&& consistent(self.keys.deep_view(), self.followers.deep_view(), self.index@)
        &&& self.keys.len() > 0
    }

    /// The keys, in the order in which the corpus first had them.
    pub closed spec fn key_order(&self) -> Seq<Seq<char>> {
        self.keys.deep_view()
    }

    /// The number of keys. A table has at least one.
    pub fn len(&self) -> (n: usize)
        ensures
            n == self.key_order().len(),
            n > 0,
    {
        proof {
            use_type_invariant(self);
        }
        self.keys.len()
    }

    /// Whether a word follows the pair with this key.
    pub fn contains_key(&self, key: &str) -> (found: bool)
        ensures
            found == self@.contains_key(key@),
    {
        self.index.contains_key(key)
    }

    /// The words that follow the pair with this key.
    pub fn get(&self, key: &str) -> (found: Option<&Vec<String>>)
        ensures
            match found {
                Some(list) => self@.contains_key(key@) && list.deep_view() == self@[key@]
                    && list.len() > 0,
                None => !self@.contains_key(key@),
            },
    {
        proof {
            use_type_invariant(self);
        }
        match self.index.get(key) {
            Some(at) => {
                assert(self.followers.deep_view()[*at as int] == self.followers[*at as int].deep_view());
                Some(&self.followers[*at])
            },
            None => None,
        }
    }

    /// The words that follow `first` and `second`.
    pub fn options(&self, first: &str, second: &str) -> (found: Option<&Vec<String>>)
        ensures
            match found {
                Some(list) => self@.contains_key(context_key(first@, second@))
                    && list.deep_view() == self@[context_key(first@, second@)] && list.len() > 0,
                None => !self@.contains_key(context_key(first@, second@)),
            },
    {
        let key = join_context(first, second);
        self.get(key.as_str())
    }

    /// The two words to begin a walk with, from the key at place `at`.
    pub fn seed(&self, at: usize) -> (pair: (String, String))
        requires
            at < self.key_order().len(),
        ensures
            pair.0@ == first_word(self.key_order()[at as int]),
            pair.1@ == second_word(self.key_order()[at as int]),
    {
        split_context(self.keys[at].as_str())
    }
}

/// The key of a pair of words.
pub fn join_context(first: &str, second: &str) -> (key: String)
    ensures
        key@ == context_key(first@, second@),
{
    let mut key = String::from_str(first);
    key.push(' ');
    key.append(second);
    assert(key@ =~= context_key(first@, second@));
    key
}

/// The characters of `chars` from `from` up to `to`, as a string.
fn string_between(chars: &Vec<char>, from: usize, to: usize) -> (s: String)
    requires
        from <= to <= chars.len(),
    ensures
        s@ == chars@.subrange(from as int, to as int),
{
    let mut s = String::new();
    let mut i = from;
    while i < to
        invariant
            from <= i <= to,
            to <= chars.len(),
            s@ == chars@.subrange(from as int, i as int),
        decreases to - i,
    {
        s.push(chars[i]);
        i += 1;
        assert(s@ =~= chars@.subrange(from as int, i as int));
    }
    assert(s@ =~= chars@.subrange(from as int, to as int));
    s
}

/// Where the first space of `chars` at or after `from` stands.
fn find_space(chars: &Vec<char>, from: usize) -> (at: usize)
    requires
        from <= chars.len(),
    ensures
        at == space_from(chars@, from as int),
        from <= at <= chars.len(),
{
    let mut at = from;
    while at < chars.len() && chars[at] != ' '
        invariant
            from <= at <= chars.len(),
            space_from(chars@, at as int) == space_from(chars@, from as int),
        decreases chars.len() - at,
    {
        at += 1;
    }
    at
}

/// The two words of a key: what stands before its first space, and what
/// stands after it up to the next space.
pub fn split_context(key: &str) -> (pair: (String, String))
    ensures
        pair.0@ == first_word(key@),
        pair.1@ == second_word(key@),
{
    let chars = chars_of(key);
    let space = find_space(&chars, 0);
    let first = string_between(&chars, 0, space);
    if space >= chars.len() {
        (first, String::new())
    } else {
        let end = find_space(&chars, space + 1);
        (first, string_between(&chars, space + 1, end))
    }
}

/// Builds the transition table of a corpus. A corpus of fewer than three
/// words has no word that follows a pair, and is refused.
pub fn create_cache(tokens: Vec<String>) -> (made: Result<TransitionTable, MarkovError>)
    ensures
        made is Err <==> tokens.len() < 3,
        made matches Err(error) ==> error == MarkovError::CorpusTooSmall,
        made matches Ok(cache) ==> {
            &&& cache@ == transitions(tokens.deep_view())
            &&& cache.key_order() == contexts(tokens.deep_view())
            &&& cache.key_order().len() > 0
            &&& cache.key_order().no_duplicates()
            &&& forall|key: Seq<char>|
                cache.key_order().contains(key) <==> #[trigger] cache@.contains_key(key)
            &&& forall|key: Seq<char>| #[trigger]
                cache@.contains_key(key) ==> cache@[key].len() > 0
        },
{
    if tokens.len() < 3 {
        return Err(MarkovError::CorpusTooSmall);
    }
    proof {
        lemma_table_keys(tokens.deep_view());
    }
    let mut keys: Vec<String> = Vec::new();
    let mut followers: Vec<Vec<String>> = Vec::new();
    let mut index: StringHashMap<usize> = StringHashMap::new();
    let ghost corpus = tokens.deep_view();
    let mut i: usize = 0;
    assert(keys.deep_view() =~= Seq::<Seq<char>>::empty());
    assert(followers.deep_view() =~= Seq::<Seq<Seq<char>>>::empty());
    while i + 2 < tokens.len()
        invariant
            corpus == tokens.deep_view(),
            corpus.len() == tokens.len(),
            i <= transition_count(corpus),
            keys.deep_view() == contexts_within(corpus, i as int),
            consistent(keys.deep_view(), followers.deep_view(), index@),
            forall|k: Seq<char>|
                index@.contains_key(k) ==> followers.deep_view()[index@[k] as int]
                    == #[trigger] followers_within(corpus, k, i as int),
            forall|k: Seq<char>|
                !index@.contains_key(k) ==> (#[trigger] followers_within(corpus, k, i as int)).len()
                    == 0,
            i > 0 ==> keys.len() > 0,
        decreases tokens.len() - i,
    {
        let key = join_context(tokens[i].as_str(), tokens[i + 1].as_str());
        let item = tokens[i + 2].clone();
        let ghost old_keys = keys.deep_view();
        let ghost old_lists = followers.deep_view();
        let ghost old_index = index@;
        let ghost key_view = key@;
        proof {
            assert(corpus[i as int] == tokens[i as int]@);
            assert(corpus[i + 1] == tokens[i + 1]@);
            assert(corpus[i + 2] == tokens[i + 2]@);
        }
        match index.get(key.as_str()) {
            Some(at) => {
                let at = *at;
                followers[at].push(item);
                proof {
                    assert(followers[at as int].deep_view() =~= old_lists[at as int].push(item@));
                    assert(followers.deep_view() =~= old_lists.update(
                        at as int,
                        old_lists[at as int].push(item@),
                    ));
                    assert(old_keys[at as int] == key@);
                    assert(old_keys.contains(key@));
                }
            },
            None => {
                let mut list: Vec<String> = Vec::new();
                list.push(item);
                index.insert(key.clone(), keys.len());
                keys.push(key);
                followers.push(list);
                proof {
                    assert(keys.deep_view() =~= old_keys.push(key@));
                    assert(list.deep_view() =~= seq![item@]);
                    assert(followers.deep_view() =~= old_lists.push(seq![item@]));
                    if old_keys.contains(key@) {
                        let j = choose|j: int| 0 <= j < old_keys.len() && old_keys[j] == key@;
                        assert(old_index.contains_key(old_keys[j]));
                    }
                    assert(followers_within(corpus, key@, i as int).len() == 0);
                }
            },
        }
        proof {
            let n = i as int;
            let here = context_key(corpus[n], corpus[n + 1]);
            assert(here == key_view);
            assert forall|k: Seq<char>| index@.contains_key(k) implies followers.deep_view()[index@[k] as int] == #[trigger] followers_within(
                corpus,
                k,
                n + 1,
            ) by {
                let earlier = followers_within(corpus, k, n);
                if k == key_view {
                    if old_index.contains_key(key_view) {
                        assert(old_lists[old_index[k] as int] == earlier);
                    } else {
                        assert(earlier.len() == 0);
                        assert(earlier.push(corpus[n + 2]) =~= seq![corpus[n + 2]]);
                    }
                } else {
                    assert(old_index.contains_key(k));
                    assert(old_lists[old_index[k] as int] == earlier);
                }
            }
            assert forall|k: Seq<char>| !index@.contains_key(k) implies (#[trigger] followers_within(
                corpus,
                k,
                n + 1,
            )).len() == 0 by {
                let earlier = followers_within(corpus, k, n);
                assert(!old_index.contains_key(k));
                assert(earlier.len() == 0);
            }
        }
        i += 1;
    }
    proof {
        assert(i == transition_count(corpus));
        assert(table_of(followers.deep_view(), index@) =~= transitions(corpus));
    }
    Ok(TransitionTable { keys, followers, index })
}

/// Every word that follows a pair in a corpus is a word of the corpus, two
/// places after where the pair begins.
pub proof fn lemma_followers_are_tokens(
    tokens: Seq<Seq<char>>,
    key: Seq<char>,
    n: int,
    word: Seq<char>,
)
    requires
        0 <= n <= transition_count(tokens),
        followers_within(tokens, key, n).contains(word),
    ensures
        exists|j: int|
            0 <= j < n && context_key(tokens[j], tokens[j + 1]) == key && #[trigger] tokens[j + 2]
                == word,
        tokens.contains(word),
    decreases n,
{
    let all = followers_within(tokens, key, n);
    let earlier = followers_within(tokens, key, n - 1);
    let at = choose|at: int| 0 <= at < all.len() && all[at] == word;
    if n > 0 {
        if context_key(tokens[n - 1], tokens[n]) == key && at == earlier.len() {
            assert(tokens[n - 1 + 2] == word);
        } else {
            assert(earlier[at] == word);
            lemma_followers_are_tokens(tokens, key, n - 1, word);
            let j = choose|j: int|
                0 <= j < n - 1 && context_key(tokens[j], tokens[j + 1]) == key
                    && #[trigger] tokens[j + 2] == word;
            assert(tokens[j + 2] == word);
        }
    }
}

/// The keys of a corpus are the keys of its transition table, each once: a
/// key is listed exactly where a word follows its pair.
pub proof fn lemma_contexts_are_keys(tokens: Seq<Seq<char>>, n: int)
    requires
        0 <= n <= transition_count(tokens),
    ensures
        contexts_within(tokens, n).no_duplicates(),
        forall|key: Seq<char>|
            contexts_within(tokens, n).contains(key) <==> (#[trigger] followers_within(
                tokens,
                key,
                n,
            )).len() > 0,
        forall|k: int|
            0 <= k < contexts_within(tokens, n).len() ==> exists|j: int|
                0 <= j < n && (#[trigger] contexts_within(tokens, n)[k]) == context_key(
                    #[trigger] tokens[j],
                    tokens[j + 1],
                ),
    decreases n,
{
    let all = contexts_within(tokens, n);
    if n > 0 {
        let earlier = contexts_within(tokens, n - 1);
        let here = context_key(tokens[n - 1], tokens[n]);
        lemma_contexts_are_keys(tokens, n - 1);
        assert forall|key: Seq<char>| all.contains(key) <==> (#[trigger] followers_within(
            tokens,
            key,
            n,
        )).len() > 0 by {
            let before = followers_within(tokens, key, n - 1);
            if all.contains(key) {
                let at = choose|at: int| 0 <= at < all.len() && all[at] == key;
                if at < earlier.len() {
                    assert(earlier[at] == key);
                    assert(earlier.contains(key));
                }
            }
            if followers_within(tokens, key, n).len() > 0 {
                if key == here {
                    if !earlier.contains(key) {
                        assert(all[earlier.len() as int] == key);
                    } else {
                        let at = choose|at: int| 0 <= at < earlier.len() && earlier[at] == key;
                        assert(all[at] == key);
                    }
                } else {
                    assert(before.len() > 0);
                    assert(earlier.contains(key));
                    let at = choose|at: int| 0 <= at < earlier.len() && earlier[at] == key;
                    assert(all[at] == key);
                }
            }
        }
        assert forall|k: int| 0 <= k < all.len() implies exists|j: int|
            0 <= j < n && (#[trigger] all[k]) == context_key(#[trigger] tokens[j], tokens[j + 1]) by {
            if k < earlier.len() {
                assert(all[k] == earlier[k]);
                let j = choose|j: int|
                    0 <= j < n - 1 && earlier[k] == context_key(#[trigger] tokens[j], tokens[j + 1]);
                assert(all[k] == context_key(tokens[j], tokens[j + 1]));
            } else {
                assert(all[k] == context_key(tokens[n - 1], tokens[n]));
            }
        }
    }
}

/// The keys listed for a corpus are the keys of its transition table, each
/// once, and no key of the table has an empty list.
pub proof fn lemma_table_keys(tokens: Seq<Seq<char>>)
    ensures
        contexts(tokens).no_duplicates(),
        forall|key: Seq<char>|
            contexts(tokens).contains(key) <==> #[trigger] transitions(tokens).contains_key(key),
        forall|key: Seq<char>| #[trigger]
            transitions(tokens).contains_key(key) ==> transitions(tokens)[key].len() > 0,
        contexts(tokens).len() == 0 <==> tokens.len() < 3,
{
    let n = transition_count(tokens);
    lemma_contexts_are_keys(tokens, n);
    assert forall|key: Seq<char>| contexts(tokens).contains(key) <==> #[trigger] transitions(
        tokens,
    ).contains_key(key) by {
        let list = followers_within(tokens, key, n);
    }
    if tokens.len() >= 3 {
        let first = context_key(tokens[0], tokens[1]);
        lemma_contexts_are_keys(tokens, 1);
        assert(contexts_within(tokens, 0).len() == 0);
        assert(contexts_within(tokens, 1) =~= seq![first]);
        lemma_contexts_grow(tokens, 1, n);
    }
}

/// The list of keys does not shrink as more of the corpus is looked at.
pub proof fn lemma_contexts_grow(tokens: Seq<Seq<char>>, m: int, n: int)
    requires
        0 <= m <= n,
    ensures
        contexts_within(tokens, m).len() <= contexts_within(tokens, n).len(),
    decreases n - m,
{
    if m < n {
        lemma_contexts_grow(tokens, m, n - 1);
    }
}

/// The first space at or after `from` stands at `to`, where none stands
/// before `to` and `to` is a space or the end.
pub proof fn lemma_space_from(s: Seq<char>, from: int, to: int)
    requires
        0 <= from <= to <= s.len(),
        forall|i: int| from <= i < to ==> s[i] != ' ',
        to == s.len() || s[to] == ' ',
    ensures
        space_from(s, from) == to,
    decreases to - from,
{
    if from < to {
        lemma_space_from(s, from + 1, to);
    }
}

/// Splitting the key of a pair gives the pair back, where neither word
/// holds a space.
pub proof fn lemma_split_joined(first: Seq<char>, second: Seq<char>)
    requires
        !first.contains(' '),
        !second.contains(' '),
    ensures
        first_word(context_key(first, second)) == first,
        second_word(context_key(first, second)) == second,
{
    let key = context_key(first, second);
    let a = first.len() as int;
    assert forall|i: int| 0 <= i < a implies key[i] != ' ' by {
        assert(key[i] == first[i]);
        assert(first.contains(first[i]));
    }
    assert(key[a] == ' ');
    lemma_space_from(key, 0, a);
    assert forall|i: int| a + 1 <= i < key.len() implies key[i] != ' ' by {
        assert(key[i] == second[i - a - 1]);
        assert(second.contains(second[i - a - 1]));
    }
    lemma_space_from(key, a + 1, key.len() as int);
    assert(key.subrange(0, a) =~= first);
    assert(key.subrange(a + 1, key.len() as int) =~= second);
}

/// Where no word of the corpus holds a space, every word of a walk over the
/// corpus' table is a word of the corpus: nothing is generated that the
/// corpus does not have.
pub proof fn lemma_generated_from_corpus(
    tokens: Seq<Seq<char>>,
    words: Seq<Seq<char>>,
    limit: int,
)
    requires
        forall|j: int| 0 <= j < tokens.len() ==> !(#[trigger] tokens[j]).contains(' '),
        generated(transitions(tokens), contexts(tokens), words, limit),
    ensures
        forall|i: int| 0 <= i < words.len() ==> tokens.contains(#[trigger] words[i]),
{
    let table = transitions(tokens);
    let keys = contexts(tokens);
    let n = transition_count(tokens);
    let path = choose|path: Seq<Seq<char>>| #[trigger]
        is_walk(table, keys, path, limit) && words == path.take(path.len() - 2);
    let k = choose|k: int|
        0 <= k < keys.len() && first_word(#[trigger] keys[k]) == path[0] && second_word(keys[k])
            == path[1];
    lemma_contexts_are_keys(tokens, n);
    let j = choose|j: int|
        0 <= j < n && (#[trigger] contexts_within(tokens, n)[k]) == context_key(
            #[trigger] tokens[j],
            tokens[j + 1],
        );
    assert(!tokens[j].contains(' '));
    assert(!tokens[j + 1].contains(' '));
    lemma_split_joined(tokens[j], tokens[j + 1]);
    assert forall|i: int| 0 <= i < words.len() implies tokens.contains(#[trigger] words[i]) by {
        assert(words[i] == path[i]);
        if i == 0 {
            assert(path[0] == tokens[j]);
        } else if i == 1 {
            assert(path[1] == tokens[j + 1]);
        } else {
            assert(follows(table, path, i - 2));
            let key = context_key(path[i - 2], path[i - 1]);
            lemma_followers_are_tokens(tokens, key, n, path[i]);
        }
    }
}

/// rand's standard generator: a value that is handed on and never looked
/// into.
#[verifier::external_type_specification]
#[verifier::external_body]
pub struct ExStdRng(StdRng);

/// `Rng::gen_range(0, bound)` on a `StdRng`: a number from 0 up to, and not
/// including, `bound`. Which one depends on the generator, so no more is
/// said of it. rand panics where the range is empty, so `bound` is not 0.
#[verifier::external_body]
fn random_below(rng: &mut StdRng, bound: usize) -> (n: usize)
    requires
        bound > 0,
    ensures
        n < bound,
{
    rng.gen_range(0, bound)
}

/// Generates up to `num_words` words by a random walk over `cache`: it
/// begins with the two words of a key drawn at random, and goes on by
/// drawing, at random, one of the words that follow the last two. The walk
/// ends early where nothing follows them.
pub fn generate_text(cache: &TransitionTable, num_words: i32, rng: &mut StdRng) -> (words: Vec<
    String,
>)
    ensures
        generated(cache@, cache.key_order(), words.deep_view(), num_words as int),
        words.len() <= num_words || words.len() == 0,
{
    let mut output: Vec<String> = Vec::new();
    let random_idx = random_below(rng, cache.len());
    let (mut first, mut second) = cache.seed(random_idx);
    let ghost keys = cache.key_order();
    let ghost mut path: Seq<Seq<char>> = seq![first@, second@];
    assert(output.deep_view() =~= path.take(path.len() - 2));
    let mut made: i32 = 0;
    while made < num_words
        invariant
            keys == cache.key_order(),
            0 <= made,
            made <= num_words || made == 0,
            path.len() == made + 2,
            output.len() == made,
            path[made as int] == first@,
            path[made + 1] == second@,
            output.deep_view() == path.take(path.len() - 2),
            exists|k: int|
                0 <= k < keys.len() && first_word(#[trigger] keys[k]) == path[0] && second_word(
                    keys[k],
                ) == path[1],
            forall|i: int| 0 <= i < path.len() - 2 ==> #[trigger] follows(cache@, path, i),
        decreases num_words - made,
    {
        let ghost mut picked: int = 0;
        let new_word = match cache.options(first.as_str(), second.as_str()) {
            Some(options) => {
                let new_word_idx = random_below(rng, options.len());
                proof {
                    picked = new_word_idx as int;
                    assert(options.deep_view()[picked] == options[picked]@);
                }
                options[new_word_idx].clone()
            },
            None => {
                assert(is_walk(cache@, keys, path, num_words as int));
                return output;
            },
        };
        proof {
            let longer = path.push(new_word@);
            let list = cache@[context_key(first@, second@)];
            assert(longer.take(longer.len() - 2) =~= path.take(path.len() - 2).push(first@));
            assert forall|i: int| 0 <= i < longer.len() - 2 implies #[trigger] follows(
                cache@,
                longer,
                i,
            ) by {
                if i < path.len() - 2 {
                    assert(follows(cache@, path, i));
                } else {
                    assert(list[picked] == longer[i + 2]);
                }
            }
            assert(longer[0] == path[0] && longer[1] == path[1]);
            path = longer;
        }
        let ghost shown = output.deep_view();
        output.push(first);
        assert(output.deep_view() =~= shown.push(first@));
        first = second;
        second = new_word;
        made += 1;
    }
    assert(is_walk(cache@, keys, path, num_words as int));
    output
}

} // verus!
