//! The game engine: one player's word-guessing session and the evaluation of
//! guesses against it.
//!
//! A session holds a secret word drawn from a fixed vocabulary and the sets of
//! letters guessed so far, split into those that occur in the word and those
//! that do not. A guess of exactly one character is classified as `Right`,
//! `Wrong` or `AlreadyGuessed` and accumulates; any other guess is a whole-word
//! guess, which either wins or loses and in both cases resets the session to a
//! freshly drawn word with empty guess sets.

use vstd::prelude::*;
use vstd::string::StrSliceExecFns;
use vstd::string::StringExecFns;

verus! {

/// Classification of a single-letter guess.
#[derive(Clone, Copy, Debug, PartialEq, Eq, Structural)]
pub enum Guess {
    Right,
    Wrong,
    AlreadyGuessed,
}

/// Lowercases one character; only the ASCII uppercase letters change.
pub open spec fn lower_char(c: char) -> char {
    match c {
        'A' => 'a',
        'B' => 'b',
        'C' => 'c',
        'D' => 'd',
        'E' => 'e',
        'F' => 'f',
        'G' => 'g',
        'H' => 'h',
        'I' => 'i',
        'J' => 'j',
        'K' => 'k',
        'L' => 'l',
        'M' => 'm',
        'N' => 'n',
        'O' => 'o',
        'P' => 'p',
        'Q' => 'q',
        'R' => 'r',
        'S' => 's',
        'T' => 't',
        'U' => 'u',
        'V' => 'v',
        'W' => 'w',
        'X' => 'x',
        'Y' => 'y',
        'Z' => 'z',
        _ => c,
    }
}

/// Lowercases a sequence of characters pointwise.
pub open spec fn lower_seq(s: Seq<char>) -> Seq<char> {
    Seq::new(s.len(), |i: int| lower_char(s[i]))
}

/// A word that normalization leaves unchanged and that is not empty: a valid
/// vocabulary entry and a valid secret word.
pub open spec fn is_lower_word(w: Seq<char>) -> bool {
    &&& w.len() > 0
    &&& lower_seq(w) == w
}

/// A vocabulary the engine can draw secret words from: non-empty, every word
/// non-empty and already lowercase.
pub open spec fn vocab_wf(vocab: Seq<Seq<char>>) -> bool {
    &&& vocab.len() > 0
    &&& forall|i: int| 0 <= i < vocab.len() ==> is_lower_word(#[trigger] vocab[i])
}

/// The mathematical state of one game session.
pub ghost struct GameModel {
    /// The secret word.
    pub word: Seq<char>,
    /// Letters guessed that occur in the secret word, in guess order.
    pub right: Seq<char>,
    /// Letters guessed that do not occur in the secret word, in guess order.
    pub wrong: Seq<char>,
    /// The vocabulary secret words are drawn from.
    pub vocab: Seq<Seq<char>>,
}

impl GameModel {
    /// Session invariant: the vocabulary is valid, the secret word is drawn
    /// from it, every rightly guessed letter occurs in the word, no letter is
    /// recorded twice, and no letter is recorded both as right and as wrong.
    pub open spec fn wf(self) -> bool {
        &&& vocab_wf(self.vocab)
        &&& self.vocab.contains(self.word)
        &&& forall|c: char| self.right.contains(c) ==> self.word.contains(c)
        &&& forall|c: char| !(self.right.contains(c) && self.wrong.contains(c))
        &&& self.right.no_duplicates()
        &&& self.wrong.no_duplicates()
    }

    /// A session just created or just reset: no guesses yet, secret word drawn
    /// from the given vocabulary.
    pub open spec fn is_fresh(self, vocab: Seq<Seq<char>>) -> bool {
        &&& self.vocab == vocab
        &&& self.vocab.contains(self.word)
        &&& self.right.len() == 0
        &&& self.wrong.len() == 0
    }
}

/// How a single-letter guess is classified against a session.
pub open spec fn classify(m: GameModel, c: char) -> Guess {
    if m.right.contains(c) || m.wrong.contains(c) {
        Guess::AlreadyGuessed
    } else if m.word.contains(c) {
        Guess::Right
    } else {
        Guess::Wrong
    }
}

/// The session after a single-letter guess: the letter joins the matching set,
/// unless it was already guessed, in which case nothing changes.
pub open spec fn letter_step(m: GameModel, c: char) -> GameModel {
    match classify(m, c) {
        Guess::AlreadyGuessed => m,
        Guess::Right => GameModel { word: m.word, right: m.right.push(c), wrong: m.wrong, vocab: m.vocab },
        Guess::Wrong => GameModel { word: m.word, right: m.right, wrong: m.wrong.push(c), vocab: m.vocab },
    }
}

/// The session after a reset: the given word becomes the secret, both guess
/// sets are cleared, the vocabulary is kept.
pub open spec fn reset_with(m: GameModel, w: Seq<char>) -> GameModel {
    GameModel { word: w, right: Seq::empty(), wrong: Seq::empty(), vocab: m.vocab }
}

/// The secret word rendered with every letter not yet rightly guessed masked
/// by `*`.
pub open spec fn masked_word(word: Seq<char>, right: Seq<char>) -> Seq<char> {
    Seq::new(word.len(), |i: int| if right.contains(word[i]) { word[i] } else { '*' })
}

/// The message a single-letter guess returns: a line stating the
/// classification, then the masked word as it stands after the guess.
pub open spec fn letter_message(m: GameModel, c: char) -> Seq<char> {
    match classify(m, c) {
        Guess::AlreadyGuessed => "You already guessed "@ + seq![c] + "!\n"@ + masked_word(
            m.word,
            m.right,
        ),
        Guess::Right => "Yes, it contains a "@ + seq![c] + "!\n"@ + masked_word(
            m.word,
            m.right.push(c),
        ),
        Guess::Wrong => "Nope, it doesn't contain a "@ + seq![c] + "!\n"@ + masked_word(
            m.word,
            m.right,
        ),
    }
}

/// The message a whole-word guess returns: congratulation if the normalized
/// guess equals the secret word, otherwise the losing line that names both.
pub open spec fn word_message(m: GameModel, g: Seq<char>) -> Seq<char> {
    if g == m.word {
        "You guessed right, it's "@ + m.word + "! Let's play again!"@
    } else {
        "Bzzt! It's not "@ + g + ", it's "@ + m.word + ".\nTime to move on to another word!"@
    }
}

/// The default vocabulary, stored lowercase.
pub open spec fn default_vocab() -> Seq<Seq<char>> {
    seq!["mb"@, "windy"@, "gomes"@, "johnny"@, "seoul"@, "interesting"@]
}

/// The guess sets stay disjoint through every evaluation: a single-letter
/// guess adds the letter to at most one set and never to one that holds it,
/// and a whole-word guess empties both sets.
pub proof fn lemma_guess_sets_disjoint(m: GameModel, c: char, w: Seq<char>)
    requires
        m.wf(),
    ensures
        forall|x: char|
            !(letter_step(m, c).right.contains(x) && letter_step(m, c).wrong.contains(x)),
        forall|x: char|
            !(reset_with(m, w).right.contains(x) && reset_with(m, w).wrong.contains(x)),
{
    lemma_letter_step_preserves_wf(m, c);
}

/// A whole-word guess that matches the secret word is answered with the
/// winning message, and the session after any whole-word guess is fresh:
/// empty guess sets, secret drawn anew from the vocabulary.
pub proof fn lemma_winning_word_guess(m: GameModel, g: Seq<char>, i: int)
    requires
        m.wf(),
        g == m.word,
        0 <= i < m.vocab.len(),
    ensures
        word_message(m, g) == "You guessed right, it's "@ + m.word + "! Let's play again!"@,
        reset_with(m, m.vocab[i]).is_fresh(m.vocab),
        reset_with(m, m.vocab[i]).wf(),
{
    lemma_reset_preserves_wf(m, i);
}

/// Classifying a letter that was guessed before always yields `AlreadyGuessed`
/// and leaves the session exactly as it was.
pub proof fn lemma_already_guessed_stable(m: GameModel, c: char)
    requires
        m.right.contains(c) || m.wrong.contains(c),
    ensures
        classify(m, c) == Guess::AlreadyGuessed,
        letter_step(m, c) == m,
{
}

/// A single-letter guess preserves the session invariant: in particular the
/// right and wrong sets stay disjoint.
pub proof fn lemma_letter_step_preserves_wf(m: GameModel, c: char)
    requires
        m.wf(),
    ensures
        letter_step(m, c).wf(),
        letter_step(m, c).vocab == m.vocab,
{
    let m2 = letter_step(m, c);
    match classify(m, c) {
        Guess::AlreadyGuessed => {
        }
        Guess::Right => {
            assert forall|x: char| m2.right.contains(x) implies m2.word.contains(x) by {
                if x != c {
                    assert(m.right.contains(x));
                }
            }
            assert forall|x: char| !(m2.right.contains(x) && m2.wrong.contains(x)) by {
                if x != c {
                    assert(m2.right.contains(x) ==> m.right.contains(x));
                }
            }
            assert(!m.right.contains(c));
            assert(m2.right.no_duplicates()) by {
                assert forall|i: int, j: int|
                    0 <= i < m2.right.len() && 0 <= j < m2.right.len() && i != j implies m2.right[i]
                    != m2.right[j] by {
                    if i < m.right.len() && j < m.right.len() {
                    } else if i < m.right.len() {
                        assert(m.right.contains(m.right[i]));
                    } else {
                        assert(m.right.contains(m.right[j]));
                    }
                }
            }
        }
        Guess::Wrong => {
            assert forall|x: char| !(m2.right.contains(x) && m2.wrong.contains(x)) by {
                if x != c {
                    assert(m2.wrong.contains(x) ==> m.wrong.contains(x));
                }
            }
            assert(!m.wrong.contains(c));
            assert(m2.wrong.no_duplicates()) by {
                assert forall|i: int, j: int|
                    0 <= i < m2.wrong.len() && 0 <= j < m2.wrong.len() && i != j implies m2.wrong[i]
                    != m2.wrong[j] by {
                    if i < m.wrong.len() && j < m.wrong.len() {
                    } else if i < m.wrong.len() {
                        assert(m.wrong.contains(m.wrong[i]));
                    } else {
                        assert(m.wrong.contains(m.wrong[j]));
                    }
                }
            }
        }
    }
}

/// A reset with any vocabulary word yields a well-formed fresh session: both
/// guess sets empty and the new secret drawn from the same vocabulary.
pub proof fn lemma_reset_preserves_wf(m: GameModel, i: int)
    requires
        vocab_wf(m.vocab),
        0 <= i < m.vocab.len(),
    ensures
        reset_with(m, m.vocab[i]).wf(),
        reset_with(m, m.vocab[i]).is_fresh(m.vocab),
{
    let m2 = reset_with(m, m.vocab[i]);
    assert(m2.vocab.contains(m2.word));
    assert(forall|c: char| !m2.right.contains(c));
    assert(forall|c: char| !m2.wrong.contains(c));
}

/// Executable counterpart of [`lower_char`].
pub fn lower_char_exec(c: char) -> (r: char)
    ensures
        r == lower_char(c),
{
    match c {
        'A' => 'a',
        'B' => 'b',
        'C' => 'c',
        'D' => 'd',
        'E' => 'e',
        'F' => 'f',
        'G' => 'g',
        'H' => 'h',
        'I' => 'i',
        'J' => 'j',
        'K' => 'k',
        'L' => 'l',
        'M' => 'm',
        'N' => 'n',
        'O' => 'o',
        'P' => 'p',
        'Q' => 'q',
        'R' => 'r',
        'S' => 's',
        'T' => 't',
        'U' => 'u',
        'V' => 'v',
        'W' => 'w',
        'X' => 'x',
        'Y' => 'y',
        'Z' => 'z',
        _ => c,
    }
}

/// Lowercases a string into its sequence of characters.
pub fn to_lower_chars(s: &str) -> (r: Vec<char>)
    ensures
        r@ == lower_seq(s@),
{
    let n: usize = s.unicode_len();
    let mut r: Vec<char> = Vec::new();
    let mut i: usize = 0;
    while i < n
        invariant
            n == s@.len(),
            i <= n,
            r@ == lower_seq(s@).subrange(0, i as int),
        decreases n - i,
    {
        let c = s.get_char(i);
        r.push(lower_char_exec(c));
        proof {
            assert(r@ =~= lower_seq(s@).subrange(0, i as int + 1));
        }
        i += 1;
    }
    proof {
        assert(r@ =~= lower_seq(s@));
    }
    r
}

/// Relies on `String::push`: appends exactly the given character.
#[verifier::external_body]
pub(crate) fn push_char(s: &mut String, c: char)
    ensures
        final(s)@ == old(s)@ + seq![c],
{
    s.push(c)
}

/// Relies on `fastrand::usize`: a sample from the non-empty range `..n` lies
/// below `n`. Nothing else is assumed of the sample.
#[verifier::external_body]
fn random_below(n: usize) -> (r: usize)
    requires
        n > 0,
    ensures
        r < n,
{
    fastrand::usize(..n)
}

/// Whether a vector of characters contains the given character.
fn contains_char(v: &Vec<char>, c: char) -> (r: bool)
    ensures
        r == v@.contains(c),
{
    let mut i: usize = 0;
    while i < v.len()
        invariant
            i <= v@.len(),
            forall|j: int| 0 <= j < i ==> v@[j] != c,
        decreases v@.len() - i,
    {
        if v[i] == c {
            return true;
        }
        i += 1;
    }
    false
}

/// Whether a string contains the given character.
fn str_contains_char(s: &str, c: char) -> (r: bool)
    ensures
        r == s@.contains(c),
{
    let n: usize = s.unicode_len();
    let mut i: usize = 0;
    while i < n
        invariant
            n == s@.len(),
            i <= n,
            forall|j: int| 0 <= j < i ==> s@[j] != c,
        decreases n - i,
    {
        if s.get_char(i) == c {
            return true;
        }
        i += 1;
    }
    false
}

/// Whether the characters of a string equal the given character sequence.
fn str_eq_chars(w: &str, g: &Vec<char>) -> (r: bool)
    ensures
        r == (g@ == w@),
{
    let n: usize = w.unicode_len();
    if n != g.len() {
        return false;
    }
    let mut i: usize = 0;
    while i < n
        invariant
            n == w@.len(),
            n == g@.len(),
            i <= n,
            forall|j: int| 0 <= j < i ==> g@[j] == w@[j],
        decreases n - i,
    {
        if w.get_char(i) != g[i] {
            return false;
        }
        i += 1;
    }
    proof {
        assert(g@ =~= w@);
    }
    true
}

/// Builds an owned string out of a sequence of characters.
fn chars_to_string(v: &Vec<char>) -> (r: String)
    ensures
        r@ == v@,
{
    let mut r = String::new();
    let mut i: usize = 0;
    while i < v.len()
        invariant
            i <= v@.len(),
            r@ == v@.subrange(0, i as int),
        decreases v@.len() - i,
    {
        push_char(&mut r, v[i]);
        proof {
            assert(r@ =~= v@.subrange(0, i as int + 1));
        }
        i += 1;
    }
    proof {
        assert(r@ =~= v@);
    }
    r
}

/// One player's game session: the secret word, the accumulated guesses and the
/// vocabulary resets draw from.
pub struct GameApp {
    pub current_word: String,
    pub right_guesses: Vec<char>,
    pub wrong_guesses: Vec<char>,
    pub vocabulary: Vec<String>,
}

impl View for GameApp {
    type V = GameModel;

    open spec fn view(&self) -> GameModel {
        GameModel {
            word: self.current_word@,
            right: self.right_guesses@,
            wrong: self.wrong_guesses@,
            vocab: self.vocabulary.deep_view(),
        }
    }
}

/// The default vocabulary as an owned vector.
pub fn default_vocabulary() -> (v: Vec<String>)
    ensures
        v.deep_view() == default_vocab(),
        vocab_wf(default_vocab()),
{
    proof {
        lemma_default_vocab_wf();
    }
    let mut v: Vec<String> = Vec::new();
    v.push(String::from_str("mb"));
    v.push(String::from_str("windy"));
    v.push(String::from_str("gomes"));
    v.push(String::from_str("johnny"));
    v.push(String::from_str("seoul"));
    v.push(String::from_str("interesting"));
    proof {
        assert(v.deep_view() =~= default_vocab());
    }
    v
}

/// The default vocabulary is a valid vocabulary.
pub proof fn lemma_default_vocab_wf()
    ensures
        vocab_wf(default_vocab()),
{
    reveal_strlit("mb");
    reveal_strlit("windy");
    reveal_strlit("gomes");
    reveal_strlit("johnny");
    reveal_strlit("seoul");
    reveal_strlit("interesting");
    assert(lower_seq("mb"@) =~= "mb"@);
    assert(lower_seq("windy"@) =~= "windy"@);
    assert(lower_seq("gomes"@) =~= "gomes"@);
    assert(lower_seq("johnny"@) =~= "johnny"@);
    assert(lower_seq("seoul"@) =~= "seoul"@);
    assert(lower_seq("interesting"@) =~= "interesting"@);
    assert forall|i: int| 0 <= i < default_vocab().len() implies is_lower_word(
        #[trigger] default_vocab()[i],
    ) by {
        if i == 0 {
            assert(is_lower_word("mb"@));
        } else if i == 1 {
            assert(is_lower_word("windy"@));
        } else if i == 2 {
            assert(is_lower_word("gomes"@));
        } else if i == 3 {
            assert(is_lower_word("johnny"@));
        } else if i == 4 {
            assert(is_lower_word("seoul"@));
        } else {
            assert(is_lower_word("interesting"@));
        }
    }
}

impl GameApp {
    /// A fresh session over the default vocabulary.
    pub fn new() -> (g: GameApp)
        ensures
            g@.wf(),
            g@.is_fresh(default_vocab()),
    {
        GameApp::with_vocabulary(default_vocabulary())
    }

    /// A fresh session over the given vocabulary.
    pub fn with_vocabulary(vocab: Vec<String>) -> (g: GameApp)
        requires
            vocab_wf(vocab.deep_view()),
        ensures
            g@.wf(),
            g@.is_fresh(vocab.deep_view()),
    {
        let ghost vocab_view = vocab.deep_view();
        let mut g = GameApp {
            current_word: String::new(),
            right_guesses: Vec::new(),
            wrong_guesses: Vec::new(),
            vocabulary: vocab,
        };
        g.restart();
        g
    }

    /// Resets the session: a new secret word drawn uniformly from the
    /// vocabulary, both guess sets cleared.
    pub fn restart(&mut self)
        requires
            vocab_wf(old(self)@.vocab),
        ensures
            final(self)@.wf(),
            final(self)@.is_fresh(old(self)@.vocab),
            exists|i: int|
                0 <= i < old(self)@.vocab.len() && final(self)@ == reset_with(
                    old(self)@,
                    old(self)@.vocab[i],
                ),
    {
        let i = random_below(self.vocabulary.len());
        self.current_word = self.vocabulary[i].clone();
        self.right_guesses.clear();
        self.wrong_guesses.clear();
        proof {
            assert(self@ == reset_with(old(self)@, old(self)@.vocab[i as int]));
            lemma_reset_preserves_wf(old(self)@, i as int);
        }
    }

    /// Classifies a single-letter guess without changing the session.
    pub fn check_guess(&self, guess: char) -> (g: Guess)
        ensures
            g == classify(self@, guess),
    {
        if contains_char(&self.right_guesses, guess) || contains_char(&self.wrong_guesses, guess) {
            return Guess::AlreadyGuessed;
        }
        if str_contains_char(self.current_word.as_str(), guess) {
            Guess::Right
        } else {
            Guess::Wrong
        }
    }

    /// The masked rendering of the secret word: rightly guessed letters shown,
    /// every other letter replaced by `*`.
    pub fn results_so_far(&self) -> (r: String)
        ensures
            r@ == masked_word(self@.word, self@.right),
    {
        let mut output = String::new();
        let word = self.current_word.as_str();
        let n: usize = word.unicode_len();
        let mut i: usize = 0;
        while i < n
            invariant
                n == word@.len(),
                word@ == self@.word,
                i <= n,
                output@ == masked_word(self@.word, self@.right).subrange(0, i as int),
            decreases n - i,
        {
            let c = word.get_char(i);
            if contains_char(&self.right_guesses, c) {
                push_char(&mut output, c);
            } else {
                push_char(&mut output, '*');
            }
            proof {
                assert(output@ =~= masked_word(self@.word, self@.right).subrange(0, i as int + 1));
            }
            i += 1;
        }
        proof {
            assert(output@ =~= masked_word(self@.word, self@.right));
        }
        output
    }

    /// Evaluates one guess. A guess that normalizes to exactly one character
    /// accumulates into the guess sets and reports the classification together
    /// with the masked word; any other guess is a whole-word guess, answered
    /// with a win or loss message, after which the session resets to a freshly
    /// drawn word with empty guess sets.
    pub fn take_guess(&mut self, guess: String) -> (r: String)
        requires
            old(self)@.wf(),
        ensures
            final(self)@.wf(),
            final(self)@.vocab == old(self)@.vocab,
            lower_seq(guess@).len() == 1 ==> final(self)@ == letter_step(
                old(self)@,
                lower_seq(guess@)[0],
            ) && r@ == letter_message(old(self)@, lower_seq(guess@)[0]),
            lower_seq(guess@).len() != 1 ==> r@ == word_message(old(self)@, lower_seq(guess@))
                && exists|i: int|
                0 <= i < old(self)@.vocab.len() && final(self)@ == reset_with(
                    old(self)@,
                    old(self)@.vocab[i],
                ),
    {
        let ghost m = self@;
        let g = to_lower_chars(guess.as_str());
        let mut output = String::new();
        if g.len() == 1 {
            let c = g[0];
            match self.check_guess(c) {
                Guess::AlreadyGuessed => {
                    output.append("You already guessed ");
                    push_char(&mut output, c);
                    output.append("!\n");
                },
                Guess::Right => {
                    self.right_guesses.push(c);
                    output.append("Yes, it contains a ");
                    push_char(&mut output, c);
                    output.append("!\n");
                },
                Guess::Wrong => {
                    self.wrong_guesses.push(c);
                    output.append("Nope, it doesn't contain a ");
                    push_char(&mut output, c);
                    output.append("!\n");
                },
            }
            let shown = self.results_so_far();
            output.append(shown.as_str());
            proof {
                lemma_letter_step_preserves_wf(m, c);
                assert(self@ == letter_step(m, c));
                assert(output@ =~= letter_message(m, c));
            }
        } else {
            if str_eq_chars(self.current_word.as_str(), &g) {
                output.append("You guessed right, it's ");
                output.append(self.current_word.as_str());
                output.append("! Let's play again!");
            } else {
                output.append("Bzzt! It's not ");
                let gs = chars_to_string(&g);
                output.append(gs.as_str());
                output.append(", it's ");
                output.append(self.current_word.as_str());
                output.append(".\nTime to move on to another word!");
            }
            proof {
                assert(output@ =~= word_message(m, lower_seq(guess@)));
            }
            self.restart();
        }
        output
    }
}

} // verus!

