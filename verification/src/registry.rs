//! The session registry: owns the live game sessions keyed by an opaque
//! session token, hands out exclusive access to exactly one session per token,
//! and evicts sessions that have been idle longer than a configured timeout.
//!
//! The registry is the single mutation boundary: a guess for a token goes
//! through [`SessionRegistry::apply_guess`], which resolves the token's
//! session (creating a fresh one on first sight), runs one engine evaluation
//! on it, and stamps the access time. An `&mut` receiver makes every call one
//! atomic step, so any interleaving of callers observes a serialization, and
//! the contracts state that a call never touches another token's entry.

use vstd::prelude::*;

use crate::game::GameApp;
use crate::game::GameModel;
use crate::game::letter_message;
use crate::game::letter_step;
use crate::game::lower_seq;
use crate::game::reset_with;
use crate::game::vocab_wf;
use crate::game::word_message;

verus! {

/// The mathematical state of one registry entry.
pub ghost struct EntryModel {
    /// When the entry was last touched by a guess, in the caller's clock.
    pub last_access: u64,
    /// The session state itself.
    pub game: GameModel,
}

/// One live entry: a session, its token, and the time it was last touched.
pub struct SessionEntry {
    pub token: u64,
    pub last_access: u64,
    pub session: GameApp,
}

impl View for SessionEntry {
    type V = EntryModel;

    open spec fn view(&self) -> EntryModel {
        EntryModel { last_access: self.last_access, game: self.session@ }
    }
}

/// The token-to-entry map a sequence of entries denotes; later entries win,
/// though a well-formed registry never repeats a token.
pub open spec fn entries_map(s: Seq<SessionEntry>) -> Map<u64, EntryModel>
    decreases s.len(),
{
    if s.len() == 0 {
        Map::empty()
    } else {
        entries_map(s.drop_last()).insert(s.last().token, s.last()@)
    }
}

/// No two entries carry the same token.
pub open spec fn tokens_unique(s: Seq<SessionEntry>) -> bool {
    forall|i: int, j: int|
        0 <= i < s.len() && 0 <= j < s.len() && i != j ==> s[i].token != s[j].token
}

/// An entry is stale when its last access lies more than `ttl_ms` before
/// `now_ms`.
pub open spec fn stale(last_access: u64, now_ms: u64, ttl_ms: u64) -> bool {
    last_access + ttl_ms < now_ms
}

/// The session a token resolves to against a registry state: the one the map
/// holds, or, for an unseen token, some well-formed fresh session over the
/// registry's vocabulary.
pub open spec fn resolves_to(
    m: Map<u64, EntryModel>,
    token: u64,
    vocab: Seq<Seq<char>>,
    g0: GameModel,
) -> bool {
    if m.dom().contains(token) {
        g0 == m[token].game
    } else {
        g0.wf() && g0.is_fresh(vocab)
    }
}

/// One engine evaluation: the message and the successor session a guess
/// produces from a session.
pub open spec fn guess_outcome(g0: GameModel, guess: Seq<char>, msg: Seq<char>, g1: GameModel) -> bool {
    if lower_seq(guess).len() == 1 {
        g1 == letter_step(g0, lower_seq(guess)[0]) && msg == letter_message(
            g0,
            lower_seq(guess)[0],
        )
    } else {
        msg == word_message(g0, lower_seq(guess)) && exists|i: int|
            0 <= i < g0.vocab.len() && g1 == reset_with(g0, g0.vocab[i])
    }
}

proof fn lemma_entries_map_domain(s: Seq<SessionEntry>, t: u64)
    ensures
        entries_map(s).dom().contains(t) <==> exists|i: int|
            0 <= i < s.len() && (#[trigger] s[i]).token == t,
    decreases s.len(),
{
    if s.len() > 0 {
        lemma_entries_map_domain(s.drop_last(), t);
        if entries_map(s).dom().contains(t) {
            if t == s.last().token {
                assert(s[s.len() - 1].token == t);
            } else {
                let i = choose|i: int|
                    0 <= i < s.drop_last().len() && (#[trigger] s.drop_last()[i]).token == t;
                assert(s[i].token == t);
            }
        }
        if exists|i: int| 0 <= i < s.len() && (#[trigger] s[i]).token == t {
            let i = choose|i: int| 0 <= i < s.len() && (#[trigger] s[i]).token == t;
            if i < s.len() - 1 {
                assert(s.drop_last()[i].token == t);
            }
        }
    }
}

proof fn lemma_entries_map_index(s: Seq<SessionEntry>, i: int)
    requires
        tokens_unique(s),
        0 <= i < s.len(),
    ensures
        entries_map(s).dom().contains(s[i].token),
        entries_map(s)[s[i].token] == s[i]@,
    decreases s.len(),
{
    if i < s.len() - 1 {
        assert(tokens_unique(s.drop_last())) by {
            assert(forall|k: int| 0 <= k < s.len() - 1 ==> s.drop_last()[k] == s[k]);
        }
        lemma_entries_map_index(s.drop_last(), i);
        assert(s.drop_last()[i] == s[i]);
        assert(s[i].token != s.last().token);
    }
}

proof fn lemma_entries_map_push(s: Seq<SessionEntry>, e: SessionEntry)
    ensures
        entries_map(s.push(e)) == entries_map(s).insert(e.token, e@),
{
    assert(s.push(e).drop_last() =~= s);
    assert(s.push(e).last() == e);
}

proof fn lemma_entries_map_update(s: Seq<SessionEntry>, i: int, e: SessionEntry)
    requires
        tokens_unique(s),
        0 <= i < s.len(),
        e.token == s[i].token,
    ensures
        entries_map(s.update(i, e)) == entries_map(s).insert(e.token, e@),
    decreases s.len(),
{
    let s2 = s.update(i, e);
    if i == s.len() - 1 {
        assert(s2.drop_last() =~= s.drop_last());
        assert(s2.last() == e);
        assert(entries_map(s.drop_last()).insert(e.token, e@) =~= entries_map(s).insert(
            e.token,
            e@,
        ));
    } else {
        assert(tokens_unique(s.drop_last())) by {
            assert(forall|k: int| 0 <= k < s.len() - 1 ==> s.drop_last()[k] == s[k]);
        }
        assert(s2.drop_last() =~= s.drop_last().update(i, e));
        assert(s2.last() == s.last());
        lemma_entries_map_update(s.drop_last(), i, e);
        assert(s[i].token != s.last().token);
        assert(entries_map(s.drop_last()).insert(e.token, e@).insert(s.last().token, s.last()@)
            =~= entries_map(s.drop_last()).insert(s.last().token, s.last()@).insert(e.token, e@));
    }
}

/// Relies on `fastrand::u64`: a sample from the non-empty range
/// `1..10_000_000` lies within it. Nothing else is known of the sample.
#[verifier::external_body]
fn random_token() -> (r: u64)
    ensures
        1 <= r < 10_000_000,
{
    fastrand::u64(1..10_000_000)
}

/// Guesses against distinct tokens are independent: the entry updates they
/// make commute, so in whichever order two such calls are serialized, neither
/// observes or disturbs the other token's session.
pub proof fn lemma_distinct_token_updates_commute(
    m: Map<u64, EntryModel>,
    t1: u64,
    e1: EntryModel,
    t2: u64,
    e2: EntryModel,
)
    requires
        t1 != t2,
    ensures
        m.insert(t1, e1).insert(t2, e2) == m.insert(t2, e2).insert(t1, e1),
{
    assert(m.insert(t1, e1).insert(t2, e2) =~= m.insert(t2, e2).insert(t1, e1));
}

/// The registry: the live entries and the vocabulary fresh sessions draw from.
pub struct SessionRegistry {
    pub entries: Vec<SessionEntry>,
    pub vocabulary: Vec<String>,
}

impl View for SessionRegistry {
    type V = Map<u64, EntryModel>;

    open spec fn view(&self) -> Map<u64, EntryModel> {
        entries_map(self.entries@)
    }
}

impl SessionRegistry {
    /// Registry invariant: tokens are unique, the vocabulary is valid, and
    /// every stored session is well-formed over that vocabulary.
    pub open spec fn wf(self) -> bool {
        &&& tokens_unique(self.entries@)
        &&& vocab_wf(self.vocabulary.deep_view())
        &&& forall|i: int|
            0 <= i < self.entries@.len() ==> (#[trigger] self.entries@[i]).session@.wf()
                && self.entries@[i].session@.vocab == self.vocabulary.deep_view()
    }

    /// An empty registry over the given vocabulary.
    pub fn new(vocabulary: Vec<String>) -> (r: SessionRegistry)
        requires
            vocab_wf(vocabulary.deep_view()),
        ensures
            r.wf(),
            r@ == Map::<u64, EntryModel>::empty(),
            r.vocabulary == vocabulary,
    {
        SessionRegistry { entries: Vec::new(), vocabulary }
    }

    /// Where the token's entry sits, if the token is live.
    fn find_index(&self, token: u64) -> (r: Option<usize>)
        ensures
            match r {
                Some(i) => i < self.entries@.len() && self.entries@[i as int].token == token
                    && self@.dom().contains(token),
                None => !self@.dom().contains(token),
            },
    {
        let mut i: usize = 0;
        while i < self.entries.len()
            invariant
                i <= self.entries@.len(),
                forall|j: int| 0 <= j < i ==> (#[trigger] self.entries@[j]).token != token,
            decreases self.entries@.len() - i,
        {
            if self.entries[i].token == token {
                proof {
                    lemma_entries_map_domain(self.entries@, token);
                }
                return Some(i);
            }
            i += 1;
        }
        proof {
            lemma_entries_map_domain(self.entries@, token);
        }
        None
    }

    /// Returns the words of the vocabulary as a fresh vector.
    fn clone_vocabulary(&self) -> (r: Vec<String>)
        ensures
            r.deep_view() == self.vocabulary.deep_view(),
    {
        let mut r: Vec<String> = Vec::new();
        let mut i: usize = 0;
        while i < self.vocabulary.len()
            invariant
                i <= self.vocabulary@.len(),
                r@.len() == i,
                forall|j: int| 0 <= j < i ==> (#[trigger] r@[j])@ == self.vocabulary@[j]@,
            decreases self.vocabulary@.len() - i,
        {
            let w = self.vocabulary[i].clone();
            r.push(w);
            i += 1;
        }
        proof {
            assert(r.deep_view() =~= self.vocabulary.deep_view());
        }
        r
    }

    /// Resolves a token to its session's position, creating and inserting a
    /// fresh session if the token was never seen (or was evicted): each token
    /// maps to exactly one session, and resolving an existing token changes
    /// nothing.
    pub fn resolve(&mut self, token: u64, now_ms: u64) -> (i: usize)
        requires
            old(self).wf(),
        ensures
            final(self).wf(),
            final(self).vocabulary == old(self).vocabulary,
            i < final(self).entries@.len(),
            final(self).entries@[i as int].token == token,
            final(self)@.dom().contains(token),
            final(self)@.dom() == old(self)@.dom().insert(token),
            forall|t: u64|
                t != token && old(self)@.dom().contains(t) ==> final(self)@[t] == old(self)@[t],
            old(self)@.dom().contains(token) ==> *final(self) == *old(self),
            !old(self)@.dom().contains(token) ==> final(self)@[token].last_access == now_ms
                && final(self)@[token].game.wf() && final(self)@[token].game.is_fresh(
                old(self).vocabulary.deep_view(),
            ),
    {
        let found = self.find_index(token);
        match found {
            Some(i) => {
                proof {
                    assert(self@.dom() =~= old(self)@.dom().insert(token));
                }
                i
            },
            None => {
                let words = self.clone_vocabulary();
                let session = GameApp::with_vocabulary(words);
                let entry = SessionEntry { token, last_access: now_ms, session };
                let ghost s0 = self.entries@;
                proof {
                    lemma_entries_map_push(s0, entry);
                    lemma_entries_map_domain(s0, token);
                }
                self.entries.push(entry);
                proof {
                    let s1 = self.entries@;
                    assert(forall|k: int|
                        0 <= k < s1.len() - 1 ==> (#[trigger] s1[k]).token != token);
                    assert(tokens_unique(s1));
                    assert(self@.dom() =~= old(self)@.dom().insert(token));
                }
                self.entries.len() - 1
            },
        }
    }

    /// Starts a session for a caller that has no token yet: draws a random
    /// token and resolves it, so that the token maps to a session afterwards
    /// (a fresh one unless the draw happened to hit a live token). The caller
    /// keeps the returned token and plays through it from then on.
    pub fn start_session(&mut self, now_ms: u64) -> (token: u64)
        requires
            old(self).wf(),
        ensures
            final(self).wf(),
            final(self).vocabulary == old(self).vocabulary,
            1 <= token < 10_000_000,
            final(self)@.dom().contains(token),
            final(self)@.dom() == old(self)@.dom().insert(token),
            forall|t: u64|
                t != token && old(self)@.dom().contains(t) ==> final(self)@[t] == old(self)@[t],
            !old(self)@.dom().contains(token) ==> final(self)@[token].last_access == now_ms
                && final(self)@[token].game.wf() && final(self)@[token].game.is_fresh(
                old(self).vocabulary.deep_view(),
            ),
    {
        let token = random_token();
        self.resolve(token, now_ms);
        token
    }

    /// Evaluates one guess for one token: resolves the session (creating a
    /// fresh one for an unseen token), runs exactly one engine evaluation
    /// under exclusive access, stamps the access time, and returns the
    /// engine's message. No other token's entry is observed or changed, and
    /// the `&mut` receiver serializes overlapping callers, so any set of
    /// concurrent calls is equivalent to them running one after another.
    pub fn apply_guess(&mut self, token: u64, guess: String, now_ms: u64) -> (r: String)
        requires
            old(self).wf(),
        ensures
            final(self).wf(),
            final(self).vocabulary == old(self).vocabulary,
            final(self)@.dom() == old(self)@.dom().insert(token),
            forall|t: u64|
                t != token && old(self)@.dom().contains(t) ==> final(self)@[t] == old(self)@[t],
            final(self)@[token].last_access == now_ms,
            final(self)@[token].game.wf(),
            exists|g0: GameModel|
                #![auto]
                resolves_to(old(self)@, token, old(self).vocabulary.deep_view(), g0)
                    && guess_outcome(g0, guess@, r@, final(self)@[token].game),
    {
        let idx = self.resolve(token, now_ms);
        let ghost s1 = self.entries@;
        let ghost m1 = self@;
        proof {
            lemma_entries_map_index(s1, idx as int);
        }
        let mut entry = self.entries.remove(idx);
        let ghost g0 = entry.session@;
        let msg = entry.session.take_guess(guess);
        entry.last_access = now_ms;
        self.entries.insert(idx, entry);
        proof {
            assert(self.entries@ =~= s1.update(idx as int, entry));
            lemma_entries_map_update(s1, idx as int, entry);
            assert(tokens_unique(self.entries@)) by {
                assert(forall|k: int|
                    0 <= k < s1.len() && k != idx ==> self.entries@[k] == s1[k]);
            }
            assert(self@.dom() =~= old(self)@.dom().insert(token));
            assert(resolves_to(old(self)@, token, old(self).vocabulary.deep_view(), g0));
            assert(guess_outcome(g0, guess@, msg@, self@[token].game));
        }
        msg
    }

    /// Removes every entry whose last access lies more than `ttl_ms` before
    /// `now_ms`; every other entry is kept exactly as it was. Eviction takes
    /// the registry exclusively, like every guess does, so it can never drop
    /// state that an in-flight guess is about to write back.
    pub fn evict_idle(&mut self, now_ms: u64, ttl_ms: u64)
        requires
            old(self).wf(),
        ensures
            final(self).wf(),
            final(self).vocabulary == old(self).vocabulary,
            forall|t: u64|
                final(self)@.dom().contains(t) <==> (old(self)@.dom().contains(t) && !stale(
                    old(self)@[t].last_access,
                    now_ms,
                    ttl_ms,
                )),
            forall|t: u64|
                final(self)@.dom().contains(t) ==> final(self)@[t] == old(self)@[t],
    {
        let ghost s0 = self.entries@;
        let n = self.entries.len();
        let mut kept: Vec<SessionEntry> = Vec::new();
        let mut i: usize = 0;
        while i < n
            invariant
                n == s0.len(),
                i <= n,
                self.entries@ == s0.subrange(i as int, n as int),
                self.vocabulary == old(self).vocabulary,
                tokens_unique(s0),
                tokens_unique(kept@),
                forall|k: int|
                    0 <= k < kept@.len() ==> exists|j: int|
                        #![auto]
                        0 <= j < i && #[trigger] kept@[k] == s0[j],
                forall|t: u64|
                    entries_map(kept@).dom().contains(t) <==> exists|j: int|
                        #![auto]
                        0 <= j < i && s0[j].token == t && !stale(s0[j].last_access, now_ms, ttl_ms),
                forall|t: u64|
                    entries_map(kept@).dom().contains(t) ==> entries_map(kept@)[t]
                        == entries_map(s0)[t],
            decreases n - i,
        {
            let e = self.entries.remove(0);
            proof {
                assert(e == s0[i as int]);
                assert(self.entries@ =~= s0.subrange(i as int + 1, n as int));
            }
            let keep = e.last_access >= now_ms || now_ms - e.last_access <= ttl_ms;
            if keep {
                proof {
                    lemma_entries_map_domain(kept@, e.token);
                    assert(!entries_map(kept@).dom().contains(e.token));
                    lemma_entries_map_push(kept@, e);
                    lemma_entries_map_index(s0, i as int);
                }
                kept.push(e);
            }
            i += 1;
        }
        self.entries = kept;
        proof {
            assert forall|t: u64| self@.dom().contains(t) implies old(self)@.dom().contains(
                t,
            ) && !stale(old(self)@[t].last_access, now_ms, ttl_ms) by {
                let j = choose|j: int|
                    #![auto]
                    0 <= j < s0.len() && s0[j].token == t && !stale(
                        s0[j].last_access,
                        now_ms,
                        ttl_ms,
                    );
                lemma_entries_map_index(s0, j);
            }
            assert forall|t: u64|
                old(self)@.dom().contains(t) && !stale(
                    old(self)@[t].last_access,
                    now_ms,
                    ttl_ms,
                ) implies self@.dom().contains(t) by {
                lemma_entries_map_domain(s0, t);
                let j = choose|j: int| 0 <= j < s0.len() && (#[trigger] s0[j]).token == t;
                lemma_entries_map_index(s0, j);
            }
        }
    }
}

} // verus!
