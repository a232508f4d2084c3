//! Tokenizing command-line arguments into a flag mapping, and resolving
//! option values with a short/long flag fallback.
use vstd::prelude::*;
use vstd::string::StrSliceExecFns;

verus! {

/// The mathematical model of a flag mapping: flag name to its values.
pub type FlagMap = Map<Seq<char>, Seq<Seq<char>>>;

/// A token introduces a flag when it starts with a dash.
pub open spec fn is_flag(s: Seq<char>) -> bool {
    s.len() > 0 && s[0] == '-'
}

/// The mapping built from `args`, together with the flag that is active
/// after the last token.
pub open spec fn tokenize_state(args: Seq<Seq<char>>) -> (FlagMap, Option<Seq<char>>)
    decreases args.len(),
{
    if args.len() == 0 {
        (Map::empty(), None)
    } else {
        let prev = tokenize_state(args.drop_last());
        let m = prev.0;
        let a = args.last();
        if is_flag(a) {
            (if m.contains_key(a) { m } else { m.insert(a, Seq::empty()) }, Some(a))
        } else {
            match prev.1 {
                Some(k) => (m.insert(k, m[k].push(a)), prev.1),
                None => (m, None),
            }
        }
    }
}

/// The flag mapping of an argument sequence.
pub open spec fn tokenize(args: Seq<Seq<char>>) -> FlagMap {
    tokenize_state(args).0
}

/// The first value recorded for `key`, if it has one.
pub open spec fn first_value(m: FlagMap, key: Seq<char>) -> Option<Seq<char>> {
    if m.contains_key(key) && m[key].len() > 0 {
        Some(m[key][0])
    } else {
        None
    }
}

/// The first value of the short flag, else the first value of the long flag.
pub open spec fn resolve(m: FlagMap, short: Seq<char>, long: Seq<char>) -> Option<Seq<char>> {
    match first_value(m, short) {
        Some(v) => Some(v),
        None => first_value(m, long),
    }
}

pub open spec fn strings_view(v: Seq<String>) -> Seq<Seq<char>> {
    v.map_values(|s: String| s@)
}

pub open spec fn opt_string_view(o: Option<String>) -> Option<Seq<char>> {
    match o {
        Some(s) => Some(s@),
        None => None,
    }
}

/// One flag and the values that followed it.
pub struct ArgEntry {
    pub key: String,
    pub values: Vec<String>,
}

/// Index of the last entry whose key is `k`, or -1.
pub open spec fn find_key(s: Seq<ArgEntry>, k: Seq<char>) -> int
    decreases s.len(),
{
    if s.len() == 0 {
        -1
    } else if s.last().key@ == k {
        s.len() - 1
    } else {
        find_key(s.drop_last(), k)
    }
}

/// Each key maps to the values of the last entry that holds it.
pub open spec fn entries_view(s: Seq<ArgEntry>) -> FlagMap {
    Map::new(
        |k: Seq<char>| find_key(s, k) >= 0,
        |k: Seq<char>| strings_view(s[find_key(s, k)].values@),
    )
}

pub open spec fn keys_unique(s: Seq<ArgEntry>) -> bool {
    forall|a: int, b: int| 0 <= a < b < s.len() ==> s[a].key@ != s[b].key@
}

/// A mapping from flag names to value sequences, with unique keys.
pub struct ArgsMap {
    entries: Vec<ArgEntry>,
}

impl View for ArgsMap {
    type V = FlagMap;

    closed spec fn view(&self) -> FlagMap {
        entries_view(self.entries@)
    }
}

proof fn lemma_find_key(s: Seq<ArgEntry>, k: Seq<char>)
    ensures
        -1 <= find_key(s, k) < s.len(),
        find_key(s, k) >= 0 ==> s[find_key(s, k)].key@ == k,
        find_key(s, k) == -1 <==> forall|i: int| 0 <= i < s.len() ==> s[i].key@ != k,
    decreases s.len(),
{
    if s.len() > 0 {
        lemma_find_key(s.drop_last(), k);
        if find_key(s, k) == -1 {
            assert forall|i: int| 0 <= i < s.len() implies s[i].key@ != k by {
                if i < s.len() - 1 {
                    assert(s[i] == s.drop_last()[i]);
                }
            }
        }
    }
}

proof fn lemma_find_unique(s: Seq<ArgEntry>, i: int)
    requires
        0 <= i < s.len(),
        forall|a: int, b: int| 0 <= a < b < s.len() ==> s[a].key@ != s[b].key@,
    ensures
        find_key(s, s[i].key@) == i,
    decreases s.len(),
{
    if i < s.len() - 1 {
        assert(s[i] == s.drop_last()[i]);
        lemma_find_unique(s.drop_last(), i);
    }
}

proof fn lemma_find_same_keys(s1: Seq<ArgEntry>, s2: Seq<ArgEntry>, k: Seq<char>)
    requires
        s1.len() == s2.len(),
        forall|j: int| 0 <= j < s1.len() ==> #[trigger] s1[j].key@ == s2[j].key@,
    ensures
        find_key(s1, k) == find_key(s2, k),
    decreases s1.len(),
{
    if s1.len() > 0 {
        assert(s1.last().key@ == s2.last().key@);
        assert forall|j: int| 0 <= j < s1.len() - 1 implies #[trigger] s1.drop_last()[j].key@
            == s2.drop_last()[j].key@ by {
            assert(s1[j].key@ == s2[j].key@);
        }
        lemma_find_same_keys(s1.drop_last(), s2.drop_last(), k);
    }
}

proof fn lemma_entries_update(olds: Seq<ArgEntry>, news: Seq<ArgEntry>, i: int)
    requires
        keys_unique(olds),
        0 <= i < olds.len(),
        news.len() == olds.len(),
        news[i].key@ == olds[i].key@,
        forall|j: int| 0 <= j < olds.len() && j != i ==> #[trigger] news[j] == olds[j],
    ensures
        keys_unique(news),
        entries_view(news) == entries_view(olds).insert(
            olds[i].key@,
            strings_view(news[i].values@),
        ),
{
    let k = olds[i].key@;
    assert forall|j: int| 0 <= j < news.len() implies #[trigger] news[j].key@ == olds[j].key@ by {
        if j != i {
            assert(news[j] == olds[j]);
        }
    }
    assert forall|kk: Seq<char>| #[trigger] find_key(news, kk) == find_key(olds, kk) by {
        lemma_find_same_keys(news, olds, kk);
    }
    let m = entries_view(olds).insert(k, strings_view(news[i].values@));
    assert forall|kk: Seq<char>| #[trigger] entries_view(news).contains_key(kk) implies entries_view(
        news,
    )[kk] == m[kk] by {
        lemma_find_key(olds, kk);
        if kk == k {
            lemma_find_unique(olds, i);
        } else {
            assert(news[find_key(olds, kk)] == olds[find_key(olds, kk)]);
        }
    }
    lemma_find_key(olds, k);
    assert(entries_view(news) =~= m);
}

proof fn lemma_entries_push(olds: Seq<ArgEntry>, e: ArgEntry)
    requires
        keys_unique(olds),
        !entries_view(olds).contains_key(e.key@),
    ensures
        keys_unique(olds.push(e)),
        entries_view(olds.push(e)) == entries_view(olds).insert(e.key@, strings_view(e.values@)),
{
    let news = olds.push(e);
    let k = e.key@;
    lemma_find_key(olds, k);
    assert(news.drop_last() =~= olds);
    let m = entries_view(olds).insert(k, strings_view(e.values@));
    assert forall|kk: Seq<char>| #[trigger] entries_view(news).contains_key(kk) implies entries_view(
        news,
    )[kk] == m[kk] by {
        if kk != k {
            lemma_find_key(olds, kk);
        }
    }
    assert(entries_view(news) =~= m);
}

impl ArgsMap {
    /// Keys are pairwise distinct.
    pub closed spec fn wf(&self) -> bool {
        keys_unique(self.entries@)
    }

    pub closed spec fn num_entries(&self) -> nat {
        self.entries@.len()
    }

    /// The key stored at position `i`.
    pub closed spec fn key_at(&self, i: int) -> Seq<char> {
        self.entries@[i].key@
    }

    /// An empty mapping.
    pub fn new() -> (r: ArgsMap)
        ensures
            r.wf(),
            r@ == Map::<Seq<char>, Seq<Seq<char>>>::empty(),
    {
        let r = ArgsMap { entries: Vec::new() };
        assert(r@ =~= Map::<Seq<char>, Seq<Seq<char>>>::empty());
        r
    }

    fn position(&self, key: &String) -> (r: Option<usize>)
        requires
            self.wf(),
        ensures
            match r {
                Some(i) => i < self.num_entries() && self.key_at(i as int) == key@
                    && self@.contains_key(key@) && self@[key@] == strings_view(
                    self.entries@[i as int].values@,
                ),
                None => !self@.contains_key(key@),
            },
    {
        let mut i: usize = 0;
        while i < self.entries.len()
            invariant
                i <= self.entries@.len(),
                self.wf(),
                forall|j: int| 0 <= j < i ==> self.entries@[j].key@ != key@,
            decreases self.entries@.len() - i,
        {
            if self.entries[i].key == *key {
                proof {
                    lemma_find_unique(self.entries@, i as int);
                }
                return Some(i);
            }
            i = i + 1;
        }
        proof {
            lemma_find_key(self.entries@, key@);
        }
        None
    }

    /// The values recorded for `key`, if it is present.
    pub fn get(&self, key: &str) -> (r: Option<&Vec<String>>)
        requires
            self.wf(),
        ensures
            match r {
                Some(v) => self@.contains_key(key@) && self@[key@] == strings_view(v@),
                None => !self@.contains_key(key@),
            },
    {
        let k = key.to_owned();
        match self.position(&k) {
            Some(i) => Some(&self.entries[i].values),
            None => None,
        }
    }

    /// Sets the values of `key`, replacing any it had.
    pub fn insert(&mut self, key: String, values: Vec<String>)
        requires
            old(self).wf(),
        ensures
            final(self).wf(),
            final(self)@ == old(self)@.insert(key@, strings_view(values@)),
    {
        match self.position(&key) {
            Some(i) => {
                self.entries.set(i, ArgEntry { key, values });
                proof {
                    lemma_entries_update(old(self).entries@, self.entries@, i as int);
                }
            },
            None => {
                self.push_entry(ArgEntry { key, values });
            },
        }
    }

    fn push_entry(&mut self, e: ArgEntry)
        requires
            old(self).wf(),
            !old(self)@.contains_key(e.key@),
        ensures
            final(self).wf(),
            final(self)@ == old(self)@.insert(e.key@, strings_view(e.values@)),
            final(self).num_entries() == old(self).num_entries() + 1,
            final(self).key_at(old(self).num_entries() as int) == e.key@,
            forall|j: int|
                0 <= j < old(self).num_entries() ==> #[trigger] final(self).key_at(j) == old(
                    self,
                ).key_at(j),
    {
        proof {
            lemma_entries_push(self.entries@, e);
        }
        self.entries.push(e);
    }

    /// Makes `key` present, with no values if it was absent, and returns its position.
    fn ensure_key(&mut self, key: String) -> (i: usize)
        requires
            old(self).wf(),
        ensures
            final(self).wf(),
            final(self)@ == (if old(self)@.contains_key(key@) {
                old(self)@
            } else {
                old(self)@.insert(key@, Seq::empty())
            }),
            i < final(self).num_entries(),
            final(self).key_at(i as int) == key@,
            final(self).num_entries() >= old(self).num_entries(),
            forall|j: int|
                0 <= j < old(self).num_entries() ==> #[trigger] final(self).key_at(j) == old(
                    self,
                ).key_at(j),
    {
        match self.position(&key) {
            Some(i) => i,
            None => {
                let ghost k = key@;
                self.push_entry(ArgEntry { key, values: Vec::new() });
                assert(strings_view(Seq::<String>::empty()) =~= Seq::<Seq<char>>::empty());
                self.entries.len() - 1
            },
        }
    }

    /// Appends `v` to the values of the key at position `i`.
    fn push_value_at(&mut self, i: usize, v: String)
        requires
            old(self).wf(),
            i < old(self).num_entries(),
        ensures
            final(self).wf(),
            final(self)@ == old(self)@.insert(
                old(self).key_at(i as int),
                old(self)@[old(self).key_at(i as int)].push(v@),
            ),
            final(self).num_entries() == old(self).num_entries(),
            forall|j: int|
                0 <= j < old(self).num_entries() ==> #[trigger] final(self).key_at(j) == old(
                    self,
                ).key_at(j),
    {
        let ghost olds = self.entries@;
        let mut e = self.entries.remove(i);
        let ghost old_vals = e.values@;
        e.values.push(v);
        self.entries.insert(i, e);
        proof {
            let news = self.entries@;
            assert forall|j: int| 0 <= j < olds.len() && j != i implies #[trigger] news[j]
                == olds[j] by {}
            lemma_entries_update(olds, news, i as int);
            lemma_find_unique(olds, i as int);
            assert(strings_view(news[i as int].values@) =~= strings_view(old_vals).push(v@));
            assert forall|j: int| 0 <= j < olds.len() implies #[trigger] self.key_at(j)
                == olds[j].key@ by {
                if j != i {
                    assert(news[j] == olds[j]);
                }
            }
        }
    }
}

/// Whether `s` starts with a dash.
fn starts_with_dash(s: &String) -> (r: bool)
    ensures
        r == is_flag(s@),
{
    let t = s.as_str();
    t.unicode_len() > 0 && t.get_char(0) == '-'
}

/// Builds the flag mapping of `args`: each dash-led token becomes a key, and
/// each other token is appended to the values of the last flag seen. Tokens
/// before the first flag are dropped; a repeated flag keeps its values.
pub fn args_map(args: &[String]) -> (r: ArgsMap)
    ensures
        r.wf(),
        r@ == tokenize(strings_view(args@)),
{
    let ghost av = strings_view(args@);
    let mut map = ArgsMap::new();
    let mut cur: Option<usize> = None;
    let mut i: usize = 0;
    while i < args.len()
        invariant
            i <= args@.len(),
            av == strings_view(args@),
            map.wf(),
            map@ == tokenize_state(av.subrange(0, i as int)).0,
            match tokenize_state(av.subrange(0, i as int)).1 {
                None => cur is None,
                Some(k) => cur is Some && cur->0 < map.num_entries() && map.key_at(cur->0 as int)
                    == k,
            },
        decreases args@.len() - i,
    {
        let ghost pre = av.subrange(0, i as int);
        assert(av.subrange(0, i + 1).drop_last() =~= pre);
        assert(av.subrange(0, i + 1).last() == args@[i as int]@);
        let arg = &args[i];
        if starts_with_dash(arg) {
            let k = map.ensure_key(arg.clone());
            cur = Some(k);
        } else {
            match cur {
                Some(k) => {
                    map.push_value_at(k, arg.clone());
                },
                None => {},
            }
        }
        i = i + 1;
    }
    assert(av.subrange(0, args@.len() as int) =~= av);
    map
}

/// The first value of the `short` flag, or, when it has none, the first
/// value of the `long` flag.
pub fn get_arg_value(args_map: &ArgsMap, short: &str, long: &str) -> (r: Option<String>)
    requires
        args_map.wf(),
    ensures
        opt_string_view(r) == resolve(args_map@, short@, long@),
{
    match first_of(args_map, short) {
        Some(v) => Some(v),
        None => first_of(args_map, long),
    }
}

fn first_of(m: &ArgsMap, key: &str) -> (r: Option<String>)
    requires
        m.wf(),
    ensures
        opt_string_view(r) == first_value(m@, key@),
{
    match m.get(key) {
        Some(v) => {
            if v.len() > 0 {
                Some(v[0].clone())
            } else {
                None
            }
        },
        None => None,
    }
}

proof fn lemma_keys_from_args(s: Seq<Seq<char>>, k: Seq<char>)
    ensures
        tokenize_state(s).0.contains_key(k) ==> s.contains(k),
        tokenize_state(s).1 == Some(k) ==> s.contains(k),
    decreases s.len(),
{
    if s.len() > 0 {
        lemma_keys_from_args(s.drop_last(), k);
        if s.drop_last().contains(k) {
            let j = choose|j: int| 0 <= j < s.len() - 1 && s.drop_last()[j] == k;
            assert(s[j] == k);
        }
        if s.last() == k {
            assert(s[s.len() - 1] == k);
        }
    }
}

/// Tokens appended later never change a first value already recorded.
proof fn lemma_first_value_kept(s: Seq<Seq<char>>, t: Seq<Seq<char>>, k: Seq<char>)
    requires
        first_value(tokenize(s), k) is Some,
    ensures
        first_value(tokenize(s + t), k) == first_value(tokenize(s), k),
    decreases t.len(),
{
    if t.len() == 0 {
        assert(s + t =~= s);
    } else {
        lemma_first_value_kept(s, t.drop_last(), k);
        assert((s + t).drop_last() =~= s + t.drop_last());
        assert((s + t).last() == t.last());
    }
}

/// While the active flag is not `f` and `f` does not occur again, the
/// values of `f` stay as they are.
proof fn lemma_untouched(s: Seq<Seq<char>>, t: Seq<Seq<char>>, f: Seq<char>)
    requires
        tokenize_state(s).1 != Some(f),
        !t.contains(f),
    ensures
        tokenize_state(s + t).1 != Some(f),
        tokenize(s + t).contains_key(f) == tokenize(s).contains_key(f),
        tokenize(s + t)[f] == tokenize(s)[f],
    decreases t.len(),
{
    if t.len() == 0 {
        assert(s + t =~= s);
    } else {
        assert(!t.drop_last().contains(f)) by {
            if t.drop_last().contains(f) {
                let j = choose|j: int| 0 <= j < t.len() - 1 && t.drop_last()[j] == f;
                assert(t[j] == f);
            }
        }
        lemma_untouched(s, t.drop_last(), f);
        assert((s + t).drop_last() =~= s + t.drop_last());
        assert((s + t).last() == t.last());
        assert(t[t.len() - 1] != f);
    }
}

/// A flag seen for the first time and followed by a plain token has that
/// token as its first value, whatever comes after.
pub proof fn lemma_flag_then_value(
    pre: Seq<Seq<char>>,
    f: Seq<char>,
    v: Seq<char>,
    post: Seq<Seq<char>>,
)
    requires
        is_flag(f),
        !is_flag(v),
        !pre.contains(f),
    ensures
        first_value(tokenize(pre + seq![f, v] + post), f) == Some(v),
{
    let s1 = pre.push(f);
    let s2 = s1.push(v);
    lemma_keys_from_args(pre, f);
    assert(s1.drop_last() =~= pre);
    assert(s2.drop_last() =~= s1);
    assert(tokenize_state(s1).1 == Some(f));
    assert(tokenize(s2)[f] =~= seq![v]);
    lemma_first_value_kept(s2, post, f);
    assert(pre + seq![f, v] + post =~= s2 + post);
}

/// Round trip of text and length: in any argument sequence where `-t` and
/// `-l` first occur as `-t value1 -l value2`, with plain values, resolving
/// `-t`/`--text` gives `value1` and resolving `-l`/`--length` gives `value2`.
pub proof fn lemma_text_length_round_trip(
    pre: Seq<Seq<char>>,
    value1: Seq<char>,
    value2: Seq<char>,
    post: Seq<Seq<char>>,
)
    requires
        !pre.contains("-t"@),
        !pre.contains("-l"@),
        !is_flag(value1),
        !is_flag(value2),
    ensures
        resolve(tokenize(pre + seq!["-t"@, value1, "-l"@, value2] + post), "-t"@, "--text"@)
            == Some(value1),
        resolve(tokenize(pre + seq!["-t"@, value1, "-l"@, value2] + post), "-l"@, "--length"@)
            == Some(value2),
{
    reveal_strlit("-t");
    reveal_strlit("-l");
    let args = pre + seq!["-t"@, value1, "-l"@, value2] + post;
    assert(is_flag("-t"@));
    assert(is_flag("-l"@));
    assert("-t"@[1] != "-l"@[1]);
    lemma_flag_then_value(pre, "-t"@, value1, seq!["-l"@, value2] + post);
    assert(pre + seq!["-t"@, value1] + (seq!["-l"@, value2] + post) =~= args);
    let pre2 = pre + seq!["-t"@, value1];
    assert(!pre2.contains("-l"@)) by {
        if pre2.contains("-l"@) {
            let j = choose|j: int| 0 <= j < pre2.len() && pre2[j] == "-l"@;
            if j < pre.len() {
                assert(pre[j] == "-l"@);
            }
        }
    }
    lemma_flag_then_value(pre2, "-l"@, value2, post);
    assert(pre2 + seq!["-l"@, value2] + post =~= args);
}

/// A flag that is followed at once by another flag, and occurs nowhere
/// else, is present with no values; resolving it as the short name falls
/// through to the long name.
pub proof fn lemma_flag_without_value(
    pre: Seq<Seq<char>>,
    f: Seq<char>,
    g: Seq<char>,
    post: Seq<Seq<char>>,
    long: Seq<char>,
)
    requires
        is_flag(f),
        is_flag(g),
        f != g,
        !pre.contains(f),
        !post.contains(f),
    ensures
        tokenize(pre + seq![f, g] + post).contains_key(f),
        tokenize(pre + seq![f, g] + post)[f] == Seq::<Seq<char>>::empty(),
        first_value(tokenize(pre + seq![f, g] + post), f) is None,
        resolve(tokenize(pre + seq![f, g] + post), f, long) == first_value(
            tokenize(pre + seq![f, g] + post),
            long,
        ),
{
    let s1 = pre.push(f);
    let s2 = s1.push(g);
    lemma_keys_from_args(pre, f);
    assert(s1.drop_last() =~= pre);
    assert(s2.drop_last() =~= s1);
    assert(tokenize(s1).contains_key(f));
    assert(tokenize(s1)[f] == Seq::<Seq<char>>::empty());
    assert(tokenize(s2).contains_key(f));
    assert(tokenize(s2)[f] == Seq::<Seq<char>>::empty());
    assert(tokenize_state(s2).1 == Some(g));
    lemma_untouched(s2, post, f);
    assert(pre + seq![f, g] + post =~= s2 + post);
}

} // verus!
