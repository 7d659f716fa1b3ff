//! Messages: the stanza as it arrives ([`Message`]) and the flattened form
//! that the plugins work on ([`SendMessage`]).
use vstd::prelude::*;
use xmpp_parsers::delay::Delay;
use xmpp_parsers::Element;
use crate::jid::{Jid, copy_text};
use crate::text::{lex_lt, lex_less, same_text, lemma_lex_asymmetric, lemma_lex_transitive, lemma_lex_total, lemma_lex_irreflexive};
use crate::xmpp::{delay_payload, parse_delay, delay_into_element, clone_delay};

verus! {

/// The `type` attribute of a message.
#[derive(PartialEq, Eq, Structural, Clone, Copy, Debug)]
pub enum MessageType {
    Chat,
    Error,
    Groupchat,
    Headline,
    Normal,
}

/// The keys of a language-keyed list.
pub open spec fn keys_of<T>(m: Seq<(Seq<char>, T)>) -> Seq<Seq<char>> {
    m.map_values(|e: (Seq<char>, T)| e.0)
}

/// No key occurs twice.
pub open spec fn distinct_keys<T>(m: Seq<(Seq<char>, T)>) -> bool {
    forall|i: int, j: int| 0 <= i < j < m.len() ==> m[i].0 != m[j].0
}

/// A map from language tags (`xml:lang`, possibly empty) to values, as a
/// message holds its bodies and subjects. Its view lists the entries in
/// the order they were added; no tag occurs twice.
pub struct LangMap<T> {
    entries: Vec<(String, T)>,
}

impl<T> View for LangMap<T> {
    type V = Seq<(Seq<char>, T)>;

    closed spec fn view(&self) -> Seq<(Seq<char>, T)> {
        self.entries@.map_values(|e: (String, T)| (e.0@, e.1))
    }
}

impl<T> LangMap<T> {
    #[verifier::type_invariant]
    closed spec fn keys_distinct(self) -> bool {
        distinct_keys(self@)
    }

    /// An empty map.
    pub fn new() -> (r: Self)
        ensures
            r@ == Seq::<(Seq<char>, T)>::empty(),
    {
        let r = LangMap { entries: Vec::new() };
        assert(r@ =~= Seq::<(Seq<char>, T)>::empty());
        r
    }

    /// The number of entries.
    pub fn len(&self) -> (r: usize)
        ensures
            r == self@.len(),
    {
        self.entries.len()
    }

    /// The position of `key`, if the map holds it.
    pub fn find(&self, key: &str) -> (r: Option<usize>)
        ensures
            r matches Some(i) ==> i < self@.len() && self@[i as int].0 == key@,
            r is None ==> !keys_of(self@).contains(key@),
    {
        let mut j: usize = 0;
        while j < self.entries.len()
            invariant
                j <= self.entries@.len(),
                forall|k: int| 0 <= k < j ==> self@[k].0 != key@,
            decreases self.entries@.len() - j,
        {
            if same_text(self.entries[j].0.as_str(), key) {
                return Some(j);
            }
            j = j + 1;
        }
        proof {
            if keys_of(self@).contains(key@) {
                let k = choose|k: int| 0 <= k < keys_of(self@).len() && keys_of(self@)[k] == key@;
                assert(self@[k].0 != key@);
            }
        }
        None
    }

    /// Sets the value under `key`, replacing the one it held.
    pub fn insert(&mut self, key: String, value: T)
        ensures
            keys_of(old(self)@).contains(key@) ==> exists|i: int|
                0 <= i < old(self)@.len() && old(self)@[i].0 == key@ && final(self)@ == old(self)@.update(
                    i,
                    (key@, value),
                ),
            !keys_of(old(self)@).contains(key@) ==> final(self)@ == old(self)@.push((key@, value)),
    {
        proof {
            use_type_invariant(&*self);
        }
        match self.find(key.as_str()) {
            Some(i) => {
                let ghost k = key@;
                assert(keys_of(old(self)@)[i as int] == k);
                let mut entries: Vec<(String, T)> = Vec::new();
                std::mem::swap(&mut entries, &mut self.entries);
                entries.set(i, (key, value));
                proof {
                    assert(entries@.map_values(|e: (String, T)| (e.0@, e.1)) =~= old(self)@.update(
                        i as int,
                        (k, value),
                    ));
                }
                self.entries = entries;
            },
            None => {
                let ghost k = key@;
                let mut entries: Vec<(String, T)> = Vec::new();
                std::mem::swap(&mut entries, &mut self.entries);
                entries.push((key, value));
                proof {
                    assert forall|a: int, b: int|
                        0 <= a < b < entries@.len() implies entries@[a].0@ != entries@[b].0@ by {
                        if b < old(self)@.len() {
                            assert(old(self)@[a].0 != old(self)@[b].0);
                        } else {
                            assert(keys_of(old(self)@)[a] == old(self)@[a].0);
                        }
                    }
                    assert(entries@.map_values(|e: (String, T)| (e.0@, e.1)) =~= old(self)@.push(
                        (k, value),
                    ));
                }
                self.entries = entries;
            },
        }
    }

    /// Takes out the entry at `i` and returns its value.
    fn remove_at(&mut self, i: usize) -> (r: T)
        requires
            i < old(self)@.len(),
        ensures
            r == old(self)@[i as int].1,
            final(self)@ == old(self)@.remove(i as int),
    {
        proof {
            use_type_invariant(&*self);
        }
        let mut entries: Vec<(String, T)> = Vec::new();
                std::mem::swap(&mut entries, &mut self.entries);
        let (_k, v) = entries.remove(i);
        proof {
            assert(entries@.map_values(|e: (String, T)| (e.0@, e.1)) =~= old(self)@.remove(
                i as int,
            ));
        }
        self.entries = entries;
        v
    }

    /// The position of the smallest key.
    fn min_key_index(&self) -> (r: usize)
        requires
            self@.len() > 0,
        ensures
            r < self@.len(),
            forall|j: int| 0 <= j < self@.len() ==> j == r || lex_lt(self@[r as int].0, self@[j].0),
    {
        proof {
            use_type_invariant(self);
        }
        let mut best: usize = 0;
        let mut i: usize = 1;
        while i < self.entries.len()
            invariant
                distinct_keys(self@),
                self@.len() == self.entries@.len(),
                best < i <= self.entries@.len(),
                forall|j: int| 0 <= j < i ==> j == best || lex_lt(self@[best as int].0, self@[j].0),
            decreases self.entries@.len() - i,
        {
            if lex_less(self.entries[i].0.as_str(), self.entries[best].0.as_str()) {
                proof {
                    assert forall|j: int| 0 <= j < i + 1 implies j == i || lex_lt(
                        self@[i as int].0,
                        self@[j].0,
                    ) by {
                        if j < i && j != best {
                            lemma_lex_transitive(self@[i as int].0, self@[best as int].0, self@[j].0);
                        }
                    }
                }
                best = i;
            } else {
                proof {
                    assert(self@[i as int].0 != self@[best as int].0);
                    lemma_lex_total(self@[i as int].0, self@[best as int].0);
                }
            }
            i = i + 1;
        }
        best
    }

    /// The map of the entries `v`, whose keys are distinct.
    pub fn from_entries(v: Vec<(String, T)>) -> (r: Self)
        requires
            distinct_keys(v@.map_values(|e: (String, T)| (e.0@, e.1))),
        ensures
            r@ == v@.map_values(|e: (String, T)| (e.0@, e.1)),
    {
        LangMap { entries: v }
    }

    /// The entries, in order.
    pub fn into_entries(self) -> (r: Vec<(String, T)>)
        ensures
            r@.map_values(|e: (String, T)| (e.0@, e.1)) == self@,
    {
        self.entries
    }
}

/// The first of `prefs` that `keys` holds.
pub open spec fn first_present(prefs: Seq<Seq<char>>, keys: Seq<Seq<char>>) -> Option<Seq<char>>
    decreases prefs.len(),
{
    if prefs.len() == 0 {
        None
    } else if keys.contains(prefs[0]) {
        Some(prefs[0])
    } else {
        first_present(prefs.drop_first(), keys)
    }
}

/// `k` is the key to pick from `keys` for the preferred languages `prefs`:
/// the first preferred one present; else the empty tag, if present; else
/// the smallest key.
pub open spec fn is_best_key(keys: Seq<Seq<char>>, prefs: Seq<Seq<char>>, k: Seq<char>) -> bool {
    match first_present(prefs, keys) {
        Some(p) => k == p,
        None => if keys.contains(Seq::<char>::empty()) {
            k == Seq::<char>::empty()
        } else {
            keys.contains(k) && forall|j: int| 0 <= j < keys.len() ==> keys[j] == k || lex_lt(k, keys[j])
        },
    }
}

/// The position in `m` of the entry to pick for `prefs`.
pub open spec fn best_index<T>(m: Seq<(Seq<char>, T)>, prefs: Seq<Seq<char>>) -> int {
    choose|i: int| 0 <= i < m.len() && is_best_key(keys_of(m), prefs, m[i].0)
}

/// The value to pick from `m` for `prefs`, if `m` is not empty.
pub open spec fn best_value<T>(m: Seq<(Seq<char>, T)>, prefs: Seq<Seq<char>>) -> Option<T> {
    if m.len() == 0 {
        None
    } else {
        Some(m[best_index(m, prefs)].1)
    }
}

/// The texts of a list of string slices.
pub open spec fn texts(v: Seq<&str>) -> Seq<Seq<char>> {
    v.map_values(|p: &str| p@)
}

/// When the keys are distinct, the entry picked for `prefs` is unique.
pub proof fn lemma_best_index_unique<T>(m: Seq<(Seq<char>, T)>, prefs: Seq<Seq<char>>, i: int)
    requires
        distinct_keys(m),
        0 <= i < m.len(),
        is_best_key(keys_of(m), prefs, m[i].0),
    ensures
        best_index(m, prefs) == i,
{
    let j = best_index(m, prefs);
    assert(0 <= j < m.len() && is_best_key(keys_of(m), prefs, m[j].0));
    assert(keys_of(m)[i] == m[i].0);
    assert(keys_of(m)[j] == m[j].0);
    if first_present(prefs, keys_of(m)) is None && !keys_of(m).contains(Seq::<char>::empty()) {
        if m[i].0 != m[j].0 {
            lemma_lex_asymmetric(m[i].0, m[j].0);
        }
    }
    if i != j {
        if i < j {
            assert(m[i].0 != m[j].0);
        } else {
            assert(m[j].0 != m[i].0);
        }
    }
}

/// The first preferred language that the map holds is the one taken.
pub proof fn law_preferred_language_wins<T>(m: Seq<(Seq<char>, T)>, prefs: Seq<Seq<char>>, i: int)
    requires
        distinct_keys(m),
        0 <= i < m.len(),
        first_present(prefs, keys_of(m)) == Some(m[i].0),
    ensures
        best_index(m, prefs) == i,
        best_value(m, prefs) == Some(m[i].1),
{
    lemma_best_index_unique(m, prefs, i);
}

/// When no preferred language is there, the untagged entry is taken.
pub proof fn law_untagged_is_the_fallback<T>(m: Seq<(Seq<char>, T)>, prefs: Seq<Seq<char>>, i: int)
    requires
        distinct_keys(m),
        0 <= i < m.len(),
        first_present(prefs, keys_of(m)) is None,
        m[i].0 == Seq::<char>::empty(),
    ensures
        best_value(m, prefs) == Some(m[i].1),
{
    assert(keys_of(m)[i] == m[i].0);
    assert(keys_of(m).contains(Seq::<char>::empty()));
    lemma_best_index_unique(m, prefs, i);
}

/// The entries that a message built from one optional value holds: the
/// value under `en`.
pub open spec fn english_entry(v: Option<String>) -> Seq<(Seq<char>, String)> {
    match v {
        Some(b) => seq![("en"@, b)],
        None => Seq::empty(),
    }
}

/// A body (or subject) survives being made into a stanza and flattened
/// again.
pub proof fn law_english_entry_round_trip(v: Option<String>)
    ensures
        best_value(english_entry(v), english()) == v,
{
    if let Some(b) = v {
        let m = english_entry(v);
        assert(keys_of(m) =~= seq!["en"@]);
        assert(english()[0] == "en"@);
        assert(keys_of(m)[0] == "en"@);
        assert(keys_of(m).contains(english()[0]));
        assert(first_present(english(), keys_of(m)) == Some(m[0].0));
        law_preferred_language_wins(m, english(), 0);
    }
}

proof fn lemma_first_present_skip(prefs: Seq<Seq<char>>, keys: Seq<Seq<char>>, i: int)
    requires
        0 <= i < prefs.len(),
        !keys.contains(prefs[i]),
    ensures
        first_present(prefs.skip(i), keys) == first_present(prefs.skip(i + 1), keys),
{
    assert(prefs.skip(i)[0] == prefs[i]);
    assert(prefs.skip(i).drop_first() =~= prefs.skip(i + 1));
}

/// The `<delay/>` note that [`SendMessage::get_delay`] finds in the payloads
/// `ps`, scanning from the last, and how many payloads stay in front of it.
pub open spec fn delay_scan(ps: Seq<Element>) -> (Option<Delay>, nat)
    decreases ps.len(),
{
    if ps.len() == 0 {
        (None, 0)
    } else {
        match delay_payload(ps.last()) {
            Some(d) => (Some(d), (ps.len() - 1) as nat),
            None => delay_scan(ps.drop_last()),
        }
    }
}

pub proof fn lemma_delay_scan_len(ps: Seq<Element>)
    ensures
        delay_scan(ps).1 <= ps.len(),
    decreases ps.len(),
{
    if ps.len() > 0 {
        lemma_delay_scan_len(ps.drop_last());
    }
}

/// A `<message/>` stanza.
pub struct Message {
    pub from: Option<Jid>,
    pub to: Option<Jid>,
    pub id: Option<String>,
    pub type_: MessageType,
    pub bodies: LangMap<String>,
    pub subjects: LangMap<String>,
    pub thread: Option<String>,
    pub payloads: Vec<Element>,
}

/// The parts of a `<message/>` stanza as the parser gives them: bodies and
/// subjects as (language, text) pairs, each language once.
pub struct MessageParts {
    pub from: Option<Jid>,
    pub to: Option<Jid>,
    pub id: Option<String>,
    pub type_: MessageType,
    pub bodies: Vec<(String, String)>,
    pub subjects: Vec<(String, String)>,
    pub thread: Option<String>,
    pub payloads: Vec<Element>,
}

/// The texts of a list of (language, text) pairs.
pub open spec fn lang_pairs(v: Seq<(String, String)>) -> Seq<(Seq<char>, String)> {
    v.map_values(|e: (String, String)| (e.0@, e.1))
}

/// `m` holds exactly the parts `p`.
pub open spec fn built_from(m: Message, p: MessageParts) -> bool {
    &&& m.from == p.from
    &&& m.to == p.to
    &&& m.id == p.id
    &&& m.type_ == p.type_
    &&& m.bodies@ == lang_pairs(p.bodies@)
    &&& m.subjects@ == lang_pairs(p.subjects@)
    &&& m.thread == p.thread
    &&& m.payloads == p.payloads
}

impl Message {
    /// The message made of the parts `p`.
    pub fn from_parts(p: MessageParts) -> (r: Message)
        requires
            distinct_keys(lang_pairs(p.bodies@)),
            distinct_keys(lang_pairs(p.subjects@)),
        ensures
            built_from(r, p),
    {
        Message {
            from: p.from,
            to: p.to,
            id: p.id,
            type_: p.type_,
            bodies: LangMap::from_entries(p.bodies),
            subjects: LangMap::from_entries(p.subjects),
            thread: p.thread,
            payloads: p.payloads,
        }
    }
}

/// A message reduced to what the plugins read: one body, one subject, and
/// the delay note if there was one.
pub struct SendMessage {
    pub from: Option<Jid>,
    pub to: Option<Jid>,
    pub id: Option<String>,
    pub mtype: MessageType,
    pub body: Option<String>,
    pub subject: Option<String>,
    pub thread: Option<String>,
    pub delay: Option<Delay>,
}

/// A copy of an optional ID.
pub fn copy_jid(j: &Option<Jid>) -> (r: Option<Jid>)
    ensures
        r == *j,
{
    match j {
        Some(x) => Some(x.clone()),
        None => None,
    }
}

impl Clone for SendMessage {
    fn clone(&self) -> (r: Self)
        ensures
            r == *self,
    {
        SendMessage {
            from: copy_jid(&self.from),
            to: copy_jid(&self.to),
            id: copy_text(&self.id),
            mtype: self.mtype,
            body: copy_text(&self.body),
            subject: copy_text(&self.subject),
            thread: copy_text(&self.thread),
            delay: match &self.delay {
                Some(d) => Some(clone_delay(d)),
                None => None,
            },
        }
    }
}

/// The texts of the one-element list `["en"]`.
pub open spec fn english() -> Seq<Seq<char>> {
    seq!["en"@]
}

impl SendMessage {
    /// Takes out of `map` the value for the first of `pref_langs` that it
    /// holds; else the one without a language tag; else the one with the
    /// smallest tag. An empty map gives `None`.
    pub fn get_best<T>(map: &mut LangMap<T>, pref_langs: Vec<&str>) -> (r: Option<T>)
        ensures
            r == best_value(old(map)@, texts(pref_langs@)),
            old(map)@.len() == 0 ==> final(map)@ == old(map)@,
            old(map)@.len() > 0 ==> final(map)@ == old(map)@.remove(
                best_index(old(map)@, texts(pref_langs@)),
            ),
    {
        proof {
            use_type_invariant(&*map);
        }
        let ghost m = map@;
        let ghost prefs = texts(pref_langs@);
        let ghost keys = keys_of(m);
        if map.len() == 0 {
            return None;
        }
        let mut i: usize = 0;
        assert(prefs.skip(0) =~= prefs);
        while i < pref_langs.len()
            invariant
                map@ == m,
                m == old(map)@,
                keys == keys_of(m),
                distinct_keys(m),
                m.len() > 0,
                prefs == texts(pref_langs@),
                i <= pref_langs@.len(),
                first_present(prefs, keys) == first_present(prefs.skip(i as int), keys),
            decreases pref_langs@.len() - i,
        {
            let lang = pref_langs[i];
            match map.find(lang) {
                Some(j) => {
                    proof {
                        assert(prefs.skip(i as int)[0] == lang@);
                        assert(keys[j as int] == lang@);
                        assert(keys.contains(lang@));
                        lemma_best_index_unique(m, prefs, j as int);
                    }
                    let v = map.remove_at(j);
                    return Some(v);
                },
                None => {
                    proof {
                        lemma_first_present_skip(prefs, keys, i as int);
                    }
                },
            }
            i = i + 1;
        }
        assert(prefs.skip(i as int).len() == 0);
        match map.find("") {
            Some(j) => {
                proof {
                    reveal_strlit("");
                    assert(keys[j as int] =~= Seq::<char>::empty());
                    assert(keys.contains(Seq::<char>::empty()));
                    lemma_best_index_unique(m, prefs, j as int);
                }
                let v = map.remove_at(j);
                Some(v)
            },
            None => {
                proof {
                    reveal_strlit("");
                    assert(""@ =~= Seq::<char>::empty());
                }
                let j = map.min_key_index();
                proof {
                    assert(keys[j as int] == m[j as int].0);
                    assert forall|k: int| 0 <= k < keys.len() implies keys[k] == m[j as int].0
                        || lex_lt(m[j as int].0, keys[k]) by {
                        assert(keys[k] == m[k].0);
                    }
                    lemma_best_index_unique(m, prefs, j as int);
                }
                let v = map.remove_at(j);
                Some(v)
            },
        }
    }

    /// [`SendMessage::get_best`] on the bodies of `m`.
    pub fn get_best_body(m: &mut Message, pref_langs: Vec<&str>) -> (r: Option<String>)
        ensures
            r == best_value(old(m).bodies@, texts(pref_langs@)),
            old(m).bodies@.len() == 0 ==> final(m).bodies@ == old(m).bodies@,
            old(m).bodies@.len() > 0 ==> final(m).bodies@ == old(m).bodies@.remove(
                best_index(old(m).bodies@, texts(pref_langs@)),
            ),
            final(m).subjects == old(m).subjects,
            final(m).payloads == old(m).payloads,
            final(m).from == old(m).from,
            final(m).to == old(m).to,
            final(m).id == old(m).id,
            final(m).type_ == old(m).type_,
            final(m).thread == old(m).thread,
    {
        SendMessage::get_best::<String>(&mut m.bodies, pref_langs)
    }

    /// [`SendMessage::get_best`] on the subjects of `m`.
    pub fn get_best_subject(m: &mut Message, pref_langs: Vec<&str>) -> (r: Option<String>)
        ensures
            r == best_value(old(m).subjects@, texts(pref_langs@)),
            old(m).subjects@.len() == 0 ==> final(m).subjects@ == old(m).subjects@,
            old(m).subjects@.len() > 0 ==> final(m).subjects@ == old(m).subjects@.remove(
                best_index(old(m).subjects@, texts(pref_langs@)),
            ),
            final(m).bodies == old(m).bodies,
            final(m).payloads == old(m).payloads,
            final(m).from == old(m).from,
            final(m).to == old(m).to,
            final(m).id == old(m).id,
            final(m).type_ == old(m).type_,
            final(m).thread == old(m).thread,
    {
        SendMessage::get_best::<String>(&mut m.subjects, pref_langs)
    }

    /// Pops payloads off the end of `m` until one is a `<delay/>` note, and
    /// returns that note; the popped payloads are dropped.
    pub fn get_delay(m: &mut Message) -> (r: Option<Delay>)
        ensures
            r == delay_scan(old(m).payloads@).0,
            final(m).payloads@ == old(m).payloads@.take(delay_scan(old(m).payloads@).1 as int),
            final(m).bodies == old(m).bodies,
            final(m).subjects == old(m).subjects,
            final(m).from == old(m).from,
            final(m).to == old(m).to,
            final(m).id == old(m).id,
            final(m).type_ == old(m).type_,
            final(m).thread == old(m).thread,
    {
        let ghost ps = m.payloads@;
        proof {
            lemma_delay_scan_len(ps);
            assert(ps.take(ps.len() as int) =~= ps);
        }
        while m.payloads.len() > 0
            invariant
                m.payloads@.len() <= ps.len(),
                m.payloads@ == ps.take(m.payloads@.len() as int),
                delay_scan(ps) == delay_scan(m.payloads@),
                m.bodies == old(m).bodies,
                m.subjects == old(m).subjects,
                m.from == old(m).from,
                m.to == old(m).to,
                m.id == old(m).id,
                m.type_ == old(m).type_,
                m.thread == old(m).thread,
                ps == old(m).payloads@,
            decreases m.payloads@.len(),
        {
            let ghost before = m.payloads@;
            let p = m.payloads.pop().unwrap();
            proof {
                assert(before.last() == p);
                assert(before.drop_last() =~= m.payloads@);
                assert(m.payloads@ =~= ps.take(m.payloads@.len() as int));
            }
            match parse_delay(p) {
                Some(d) => {
                    return Some(d);
                },
                None => {},
            }
        }
        None
    }

    /// The flattened form of `t`: the English (else untagged, else first)
    /// body and subject, and the last delay note among the payloads.
    pub fn from_message(t: Message) -> (r: SendMessage)
        ensures
            r.from == t.from,
            r.to == t.to,
            r.id == t.id,
            r.mtype == t.type_,
            r.body == best_value(t.bodies@, english()),
            r.subject == best_value(t.subjects@, english()),
            r.thread == t.thread,
            r.delay == delay_scan(t.payloads@).0,
    {
        let mut t = t;
        proof {
            reveal_strlit("en");
        }
        let prefs: Vec<&str> = vec!["en"];
        assert(texts(prefs@) =~= english());
        let body = SendMessage::get_best_body(&mut t, prefs);
        let prefs: Vec<&str> = vec!["en"];
        assert(texts(prefs@) =~= english());
        let subject = SendMessage::get_best_subject(&mut t, prefs);
        let delay = SendMessage::get_delay(&mut t);
        SendMessage {
            from: t.from,
            to: t.to,
            id: t.id,
            mtype: t.type_,
            body,
            subject,
            thread: t.thread,
            delay,
        }
    }

    /// The stanza for this message: body and subject tagged `en`, the delay
    /// note, if any, as the one payload.
    pub fn into_message(self) -> (r: Message)
        ensures
            r.from == self.from,
            r.to == self.to,
            r.id == self.id,
            r.type_ == self.mtype,
            r.bodies@ == english_entry(self.body),
            r.subjects@ == english_entry(self.subject),
            r.thread == self.thread,
            r.payloads@ == (match self.delay {
                Some(d) => seq![crate::xmpp::delay_element(d)],
                None => Seq::empty(),
            }),
    {
        let mut bodies: LangMap<String> = LangMap::new();
        match self.body {
            Some(b) => {
                bodies.insert("en".to_owned(), b);
            },
            None => {},
        }
        let mut subjects: LangMap<String> = LangMap::new();
        match self.subject {
            Some(s) => {
                subjects.insert("en".to_owned(), s);
            },
            None => {},
        }
        let mut payloads: Vec<Element> = Vec::new();
        match self.delay {
            Some(d) => {
                payloads.push(delay_into_element(d));
            },
            None => {},
        }
        Message {
            from: self.from,
            to: self.to,
            id: self.id,
            type_: self.mtype,
            bodies,
            subjects,
            thread: self.thread,
            payloads,
        }
    }
}

} // verus!
