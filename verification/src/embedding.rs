use vstd::prelude::*;
use rand::Rng;
use crate::language::{clean, codes, lower_of, spaced, split_ws, stripped, tokenize, vocab};

verus! {

/// A vector that is zero everywhere but at one position, held as its length
/// and the position of its single one; the numeric side materializes it.
pub struct OneHot {
    pub size: usize,
    pub hot: usize,
}

impl OneHot {
    /// The hot position lies inside the vector.
    pub open spec fn wf(self) -> bool {
        self.hot < self.size
    }
}

/// Relies on rand's thread-local generator and Rng::gen_range on `lo..hi`: the
/// draw lies in that half-open range; which value comes back is not fixed by
/// the arguments.
#[verifier::external_body]
fn rand_range(lo: usize, hi: usize) -> (r: usize)
    requires
        lo < hi,
    ensures
        lo <= r < hi,
{
    rand::thread_rng().gen_range(lo..hi)
}

/// Relies on rand's thread-local generator and Rng::gen for bool: a coin
/// flip; nothing is promised of it.
#[verifier::external_body]
fn rand_bool() -> bool {
    rand::thread_rng().gen::<bool>()
}

/// Prepares word-embedding training: it numbers the words of a cleaned text
/// and hands out randomly sampled pairs of nearby words, one-hot encoded, for
/// the underlying network to train on.
pub struct EmbeddingBuilder {
    pub num_to_word: Vec<String>,
    pub dict_size: usize,
    pub codex: Vec<usize>,
    pub codex_size: usize,
    pub window: usize,
    pub dim: usize,
}

impl EmbeddingBuilder {
    /// The words of the text after cleaning, in text order.
    pub open spec fn cleaned_words(input: Seq<char>) -> Seq<Seq<char>> {
        split_ws(lower_of(spaced(stripped(input))))
    }

    /// The numbering is consistent: the cached sizes are the real ones, every
    /// codex entry names a word, and no word is listed twice.
    pub open spec fn wf(self) -> bool {
        &&& self.dict_size == self.num_to_word@.len()
        &&& self.codex_size == self.codex@.len()
        &&& forall|k: int| 0 <= k < self.codex@.len() ==> self.codex@[k] < self.dict_size
        &&& self.num_to_word.deep_view().no_duplicates()
    }

    /// A builder over the cleaned and tokenized text, with a window of one
    /// word and one embedding dimension until told otherwise.
    pub fn new(input: String) -> (r: EmbeddingBuilder)
        ensures
            r.wf(),
            r.num_to_word.deep_view() == vocab(Seq::empty(), Self::cleaned_words(input@)),
            r.codex@.map_values(|u: usize| u as int)
                == codes(Seq::empty(), Self::cleaned_words(input@)),
            r.codex@.len() == Self::cleaned_words(input@).len(),
            forall|k: int| 0 <= k < r.codex@.len()
                ==> r.num_to_word.deep_view()[#[trigger] r.codex@[k] as int]
                    == Self::cleaned_words(input@)[k],
            r.dict_size == r.num_to_word@.len(),
            r.codex_size == r.codex@.len(),
            r.window == 1,
            r.dim == 1,
    {
        let cleaned = clean(input);
        let (codex, num_to_word) = tokenize(cleaned);
        let dict_size = num_to_word.len();
        let codex_size = codex.len();
        EmbeddingBuilder { num_to_word, dict_size, codex, codex_size, window: 1, dim: 1 }
    }

    /// The same builder sampling pairs up to `window` words apart.
    pub fn window(self, window: usize) -> (r: EmbeddingBuilder)
        ensures
            r == (EmbeddingBuilder { window, ..self }),
            self.wf() ==> r.wf(),
    {
        EmbeddingBuilder { window, ..self }
    }

    /// The same builder embedding words into `dim` dimensions.
    pub fn dim(self, dim: usize) -> (r: EmbeddingBuilder)
        ensures
            r == (EmbeddingBuilder { dim, ..self }),
            self.wf() ==> r.wf(),
    {
        EmbeddingBuilder { dim, ..self }
    }

    /// The one-hot vector of word number `num`.
    pub fn one_hot(&self, num: usize) -> (r: OneHot)
        requires
            num < self.dict_size,
        ensures
            r.wf(),
            r.size == self.dict_size,
            r.hot == num,
    {
        OneHot { size: self.dict_size, hot: num }
    }

    /// A training pair: the numbers of two codex words a random distance of at
    /// most `window` apart, in random order, one-hot encoded over the
    /// dictionary.
    pub fn random_pairing(&self) -> (r: (OneHot, OneHot))
        requires
            self.wf(),
            1 <= self.window,
            self.window < self.codex_size,
        ensures
            r.0.wf(),
            r.1.wf(),
            r.0.size == self.dict_size,
            r.1.size == self.dict_size,
            exists|i: int, o: int|
                {
                    &&& 1 <= o <= self.window
                    &&& 0 <= i
                    &&& i + o < self.codex@.len()
                    &&& ((r.0.hot == #[trigger] self.codex@[i] && r.1.hot == #[trigger] self
                        .codex@[i + o]) || (r.0.hot == self.codex@[i + o] && r.1.hot
                        == self.codex@[i]))
                },
    {
        let offset = rand_range(1, self.window + 1);
        let index = rand_range(0, self.codex_size - offset);
        let num1;
        let num2;
        if rand_bool() {
            num1 = self.codex[index];
            num2 = self.codex[index + offset];
        } else {
            num1 = self.codex[index + offset];
            num2 = self.codex[index];
        }
        let r = (self.one_hot(num1), self.one_hot(num2));
        proof {
            let i = index as int;
            let o = offset as int;
            assert(1 <= o <= self.window && 0 <= i && i + o < self.codex@.len()
                && ((r.0.hot == self.codex@[i] && r.1.hot == self.codex@[i + o]) || (r.0.hot
                == self.codex@[i + o] && r.1.hot == self.codex@[i])));
        }
        r
    }
}

} // verus!
