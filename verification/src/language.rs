use vstd::prelude::*;

verus! {

/// The punctuation that cleaning deletes before tokenization.
pub open spec fn is_stripped(c: char) -> bool {
    c == '.' || c == ',' || c == ':' || c == ';' || c == '?' || c == '!' || c == '"'
}

/// `s` with the stripped punctuation deleted.
pub open spec fn stripped(s: Seq<char>) -> Seq<char> {
    s.filter(|c: char| !is_stripped(c))
}

/// `s` with every dash turned into a space.
pub open spec fn spaced(s: Seq<char>) -> Seq<char> {
    s.map_values(|c: char| if c == '-' { ' ' } else { c })
}

/// What `str::to_lowercase` returns; fixed by the characters alone.
pub uninterp spec fn lower_of(s: Seq<char>) -> Seq<char>;

/// What `char::is_whitespace` returns; fixed by the character alone.
pub uninterp spec fn is_ws(c: char) -> bool;

/// Relies on regex::Regex::new compiling the fixed class of stripped
/// characters and on Regex::replace_all with an empty replacement: every
/// occurrence of a class character is deleted and the rest of the text is
/// kept in order.
#[verifier::external_body]
fn strip_punctuation(s: &str) -> (r: String)
    ensures
        r@ == stripped(s@),
{
    let re = regex::Regex::new("[.,:;?!-\"]").unwrap();
    re.replace_all(s, "").into_owned()
}

/// Relies on regex::Regex::new compiling the one-character pattern `-` and on
/// Regex::replace_all: every dash becomes one space and the rest of the text
/// is kept in order.
#[verifier::external_body]
fn break_dashes(s: &str) -> (r: String)
    ensures
        r@ == spaced(s@),
{
    let re = regex::Regex::new("-").unwrap();
    re.replace_all(s, " ").into_owned()
}

/// Relies on str::to_lowercase: the result depends on the characters alone.
#[verifier::external_body]
fn lowercase(s: &str) -> (r: String)
    ensures
        r@ == lower_of(s@),
{
    s.to_lowercase()
}

/// Relies on char::is_whitespace: whether a character counts as white space
/// is fixed by the character alone.
#[verifier::external_body]
fn char_is_ws(c: char) -> (r: bool)
    ensures
        r == is_ws(c),
{
    c.is_whitespace()
}

/// The text lower-cased, with sentence punctuation deleted and dashes turned
/// into spaces, ready for tokenization.
pub fn clean(input: String) -> (r: String)
    ensures
        r@ == lower_of(spaced(stripped(input@))),
{
    let s = strip_punctuation(input.as_str());
    let s = break_dashes(s.as_str());
    lowercase(s.as_str())
}

/// The length of the leading run of non-white-space characters of `s`.
pub open spec fn word_len(s: Seq<char>) -> int
    decreases s.len(),
{
    if s.len() == 0 || is_ws(s[0]) {
        0
    } else {
        1 + word_len(s.drop_first())
    }
}

/// The leading run is never longer than the text.
proof fn lemma_word_len_bounds(s: Seq<char>)
    ensures
        0 <= word_len(s) <= s.len(),
    decreases s.len(),
{
    if s.len() > 0 && !is_ws(s[0]) {
        lemma_word_len_bounds(s.drop_first());
    }
}

/// A run of `i` non-white-space characters that ends at the end of the text
/// or at white space is the leading run.
proof fn lemma_word_len_characterize(s: Seq<char>, i: int)
    requires
        0 <= i <= s.len(),
        forall|k: int| 0 <= k < i ==> !is_ws(s[k]),
        i == s.len() || is_ws(s[i]),
    ensures
        word_len(s) == i,
    decreases i,
{
    if i == 0 {
    } else {
        let t = s.drop_first();
        assert(forall|k: int| 0 <= k < i - 1 ==> t[k] == s[k + 1]);
        lemma_word_len_characterize(t, i - 1);
    }
}

/// The white-space-separated words of `s`, in order; each is a maximal
/// non-empty run of non-white-space characters.
pub open spec fn split_ws(s: Seq<char>) -> Seq<Seq<char>>
    decreases s.len(),
    via split_ws_decreases
{
    if s.len() == 0 {
        Seq::empty()
    } else if is_ws(s[0]) {
        split_ws(s.drop_first())
    } else {
        seq![s.take(word_len(s))] + split_ws(s.skip(word_len(s)))
    }
}

#[via_fn]
proof fn split_ws_decreases(s: Seq<char>) {
    lemma_word_len_bounds(s);
    if s.len() > 0 && !is_ws(s[0]) {
        lemma_word_len_bounds(s.drop_first());
        assert(word_len(s) == 1 + word_len(s.drop_first()));
    }
}

/// The words of `s`: its maximal runs of non-white-space characters, in order.
pub fn words(s: &str) -> (r: Vec<String>)
    ensures
        r.deep_view() == split_ws(s@),
    decreases s@.len(),
{
    let n = s.unicode_len();
    if n == 0 {
        let r: Vec<String> = Vec::new();
        proof {
            assert(r.deep_view() =~= split_ws(s@));
        }
        return r;
    }
    let c0 = s.get_char(0);
    if char_is_ws(c0) {
        let rest = s.substring_char(1, n);
        proof {
            assert(rest@ == s@.drop_first());
        }
        return words(rest);
    }
    let mut i: usize = 1;
    while i < n
        invariant
            1 <= i <= n,
            n == s@.len(),
            forall|k: int| 0 <= k < i ==> !is_ws(s@[k]),
        ensures
            1 <= i <= n,
            n == s@.len(),
            forall|k: int| 0 <= k < i ==> !is_ws(s@[k]),
            i == n || is_ws(s@[i as int]),
        decreases n - i,
    {
        if char_is_ws(s.get_char(i)) {
            break;
        }
        i = i + 1;
    }
    proof {
        lemma_word_len_characterize(s@, i as int);
    }
    let w = s.substring_char(0, i).to_owned();
    let rest = s.substring_char(i, n);
    let mut r: Vec<String> = Vec::new();
    r.push(w);
    let mut tail = words(rest);
    r.append(&mut tail);
    proof {
        assert(r.deep_view() =~= split_ws(s@));
    }
    r
}

/// The vocabulary after reading the words `ws` left to right starting from
/// `v`: each word not seen before is appended.
pub open spec fn vocab(v: Seq<Seq<char>>, ws: Seq<Seq<char>>) -> Seq<Seq<char>>
    decreases ws.len(),
{
    if ws.len() == 0 {
        v
    } else if v.contains(ws[0]) {
        vocab(v, ws.drop_first())
    } else {
        vocab(v.push(ws[0]), ws.drop_first())
    }
}

/// The number given to each word of `ws`, read left to right starting from
/// the vocabulary `v`: the position of the word in the vocabulary grown so
/// far.
pub open spec fn codes(v: Seq<Seq<char>>, ws: Seq<Seq<char>>) -> Seq<int>
    decreases ws.len(),
{
    if ws.len() == 0 {
        Seq::empty()
    } else if v.contains(ws[0]) {
        seq![v.index_of(ws[0])] + codes(v, ws.drop_first())
    } else {
        seq![v.len() as int] + codes(v.push(ws[0]), ws.drop_first())
    }
}

/// The vocabulary only ever grows at its end.
pub proof fn lemma_vocab_extends(v: Seq<Seq<char>>, ws: Seq<Seq<char>>)
    ensures
        v.len() <= vocab(v, ws).len(),
        forall|k: int| 0 <= k < v.len() ==> vocab(v, ws)[k] == v[k],
    decreases ws.len(),
{
    if ws.len() > 0 {
        if v.contains(ws[0]) {
            lemma_vocab_extends(v, ws.drop_first());
            assert(vocab(v, ws) == vocab(v, ws.drop_first()));
        } else {
            lemma_vocab_extends(v.push(ws[0]), ws.drop_first());
            assert(vocab(v, ws) == vocab(v.push(ws[0]), ws.drop_first()));
            assert(forall|k: int| 0 <= k < v.len() ==> v.push(ws[0])[k] == v[k]);
        }
    }
}

/// A vocabulary without repeated words stays without repeated words: no word
/// is ever numbered twice.
pub proof fn lemma_vocab_distinct(v: Seq<Seq<char>>, ws: Seq<Seq<char>>)
    requires
        v.no_duplicates(),
    ensures
        vocab(v, ws).no_duplicates(),
    decreases ws.len(),
{
    if ws.len() > 0 {
        if v.contains(ws[0]) {
            lemma_vocab_distinct(v, ws.drop_first());
        } else {
            assert(v.push(ws[0]).no_duplicates());
            lemma_vocab_distinct(v.push(ws[0]), ws.drop_first());
        }
    }
}

/// There is one code per word, and every code names an entry of the final
/// vocabulary.
pub proof fn lemma_codes_bounded(v: Seq<Seq<char>>, ws: Seq<Seq<char>>)
    ensures
        codes(v, ws).len() == ws.len(),
        forall|k: int| 0 <= k < ws.len() ==> 0 <= #[trigger] codes(v, ws)[k] < vocab(v, ws).len(),
    decreases ws.len(),
{
    if ws.len() > 0 {
        if v.contains(ws[0]) {
            assert(0 <= v.index_of(ws[0]) < v.len());
            lemma_vocab_extends(v, ws.drop_first());
            lemma_codes_bounded(v, ws.drop_first());
        } else {
            lemma_vocab_extends(v.push(ws[0]), ws.drop_first());
            lemma_codes_bounded(v.push(ws[0]), ws.drop_first());
        }
    }
}

/// Decoding undoes the numbering: looking each code up in the final
/// vocabulary gives back the word it was given for.
pub proof fn lemma_codes_decode(v: Seq<Seq<char>>, ws: Seq<Seq<char>>)
    ensures
        forall|k: int| 0 <= k < ws.len()
            ==> vocab(v, ws)[#[trigger] codes(v, ws)[k]] == ws[k],
    decreases ws.len(),
{
    lemma_codes_bounded(v, ws);
    if ws.len() > 0 {
        let rest = ws.drop_first();
        if v.contains(ws[0]) {
            let i = v.index_of(ws[0]);
            assert(0 <= i < v.len() && v[i] == ws[0]);
            lemma_vocab_extends(v, rest);
            lemma_codes_decode(v, rest);
            assert(vocab(v, ws) == vocab(v, rest));
            assert(codes(v, ws) == seq![i] + codes(v, rest));
            assert(forall|k: int| 0 <= k < rest.len()
                ==> codes(v, ws)[k + 1] == #[trigger] codes(v, rest)[k] && ws[k + 1] == rest[k]);
        } else {
            let w = v.push(ws[0]);
            lemma_vocab_extends(w, rest);
            lemma_codes_decode(w, rest);
            assert(vocab(v, ws) == vocab(w, rest));
            assert(codes(v, ws) == seq![v.len() as int] + codes(w, rest));
            assert(vocab(v, ws)[v.len() as int] == w[v.len() as int]);
            assert(forall|k: int| 0 <= k < rest.len()
                ==> codes(v, ws)[k + 1] == #[trigger] codes(w, rest)[k] && ws[k + 1] == rest[k]);
        }
    }
}

/// The number of `word` in the vocabulary `words`: the position of its first
/// occurrence, if it occurs at all.
pub fn word_to_num(words: &Vec<String>, word: &str) -> (r: Option<usize>)
    ensures
        match r {
            Some(i) => {
                &&& i < words@.len()
                &&& words.deep_view()[i as int] == word@
                &&& forall|k: int| 0 <= k < i ==> words.deep_view()[k] != word@
            },
            None => forall|k: int| 0 <= k < words@.len() ==> words.deep_view()[k] != word@,
        },
{
    let goal = word.to_owned();
    let mut k: usize = 0;
    while k < words.len()
        invariant
            k <= words@.len(),
            goal@ == word@,
            forall|t: int| 0 <= t < k ==> words.deep_view()[t] != word@,
        decreases words@.len() - k,
    {
        if words[k] == goal {
            return Some(k);
        }
        k = k + 1;
    }
    None
}

/// Numbers the words of `input` in order of first appearance. Returns the
/// codex — one number per word, in text order — and the word of each number.
pub fn tokenize(input: String) -> (r: (Vec<usize>, Vec<String>))
    ensures
        r.1.deep_view() == vocab(Seq::empty(), split_ws(input@)),
        r.0@.map_values(|u: usize| u as int) == codes(Seq::empty(), split_ws(input@)),
        r.1.deep_view().no_duplicates(),
        r.0@.len() == split_ws(input@).len(),
        forall|k: int| 0 <= k < r.0@.len() ==> r.0@[k] < r.1@.len(),
        forall|k: int| 0 <= k < r.0@.len()
            ==> r.1.deep_view()[#[trigger] r.0@[k] as int] == split_ws(input@)[k],
{
    let ws = words(input.as_str());
    let ghost all = split_ws(input@);
    let mut nums: Vec<usize> = Vec::new();
    let mut num_to_word: Vec<String> = Vec::new();
    proof {
        assert(num_to_word.deep_view() =~= Seq::<Seq<char>>::empty());
        assert(all.skip(0) =~= all);
        assert(nums@.map_values(|u: usize| u as int) =~= Seq::<int>::empty());
    }
    let mut k: usize = 0;
    while k < ws.len()
        invariant
            k <= ws@.len(),
            ws.deep_view() == all,
            nums@.len() == k,
            num_to_word.deep_view().no_duplicates(),
            vocab(Seq::empty(), all) == vocab(num_to_word.deep_view(), all.skip(k as int)),
            codes(Seq::empty(), all) == nums@.map_values(|u: usize| u as int)
                + codes(num_to_word.deep_view(), all.skip(k as int)),
        decreases ws@.len() - k,
    {
        let ghost v = num_to_word.deep_view();
        let ghost rest = all.skip(k as int);
        proof {
            assert(rest[0] == all[k as int]);
            assert(all[k as int] == ws.deep_view()[k as int]);
            assert(rest.drop_first() =~= all.skip(k as int + 1));
        }
        let w = &ws[k];
        match word_to_num(&num_to_word, w.as_str()) {
            Some(i) => {
                proof {
                    assert(v.contains(rest[0]));
                    let j = v.index_of(rest[0]);
                    assert(0 <= j < v.len() && v[j] == rest[0]);
                    assert(j == i as int);
                    assert(nums@.push(i).map_values(|u: usize| u as int)
                        =~= nums@.map_values(|u: usize| u as int).push(i as int));
                    assert(seq![v.index_of(rest[0])] + codes(v, rest.drop_first())
                        =~= Seq::<int>::empty().push(i as int) + codes(v, rest.drop_first()));
                    assert(nums@.map_values(|u: usize| u as int).push(i as int)
                        + codes(v, rest.drop_first())
                        =~= nums@.map_values(|u: usize| u as int)
                        + (Seq::<int>::empty().push(i as int) + codes(v, rest.drop_first())));
                }
                nums.push(i);
            },
            None => {
                let i = num_to_word.len();
                proof {
                    assert(!v.contains(rest[0]));
                    assert(i as int == v.len());
                    assert(num_to_word@.push(ws@[k as int]).map_values(
                        |s: String| s.deep_view()) =~= v.push(rest[0]));
                    assert(v.push(rest[0]).no_duplicates());
                    assert(nums@.push(i).map_values(|u: usize| u as int)
                        =~= nums@.map_values(|u: usize| u as int).push(i as int));
                    assert(seq![v.len() as int] + codes(v.push(rest[0]), rest.drop_first())
                        =~= Seq::<int>::empty().push(i as int)
                        + codes(v.push(rest[0]), rest.drop_first()));
                    assert(nums@.map_values(|u: usize| u as int).push(i as int)
                        + codes(v.push(rest[0]), rest.drop_first())
                        =~= nums@.map_values(|u: usize| u as int)
                        + (Seq::<int>::empty().push(i as int)
                            + codes(v.push(rest[0]), rest.drop_first())));
                }
                nums.push(i);
                num_to_word.push(w.clone());
                proof {
                    assert(num_to_word.deep_view() =~= v.push(rest[0]));
                }
            },
        }
        k = k + 1;
    }
    proof {
        assert(all.skip(k as int) =~= Seq::<Seq<char>>::empty());
        lemma_vocab_distinct(Seq::empty(), all);
        lemma_codes_bounded(Seq::empty(), all);
        lemma_codes_decode(Seq::empty(), all);
        assert(forall|t: int| 0 <= t < nums@.len()
            ==> nums@.map_values(|u: usize| u as int)[t] == nums@[t] as int);
    }
    (nums, num_to_word)
}

} // verus!
