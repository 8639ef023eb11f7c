//! The import configuration: API keys, and the tags given to imported items by their channel or
//! by keywords in their title.
use vstd::prelude::*;
use crate::text::chars_of;

verus! {

/// The API keys of the services the import reads from.
pub struct Keys {
    pub yt_api_key: String,
    pub todoist_api_key: String,
}

/// The tags of the videos of one channel.
pub struct ChannelTags {
    pub channel: String,
    pub tags: Vec<String>,
}

/// The tags of the items whose title holds a keyword.
pub struct KeywordTags {
    pub keyword: String,
    pub tags: Vec<String>,
}

/// The tagging rules.
pub struct Tags {
    pub yt_tag: Vec<ChannelTags>,
    pub kw_tag: Vec<KeywordTags>,
}

pub struct Config {
    pub keys: Keys,
    pub tags: Tags,
}

pub open spec fn strs_v(s: Seq<String>) -> Seq<Seq<char>> {
    s.map_values(|x: String| x@)
}

pub open spec fn rule_v(name: String, tags: Vec<String>) -> (Seq<char>, Seq<Seq<char>>) {
    (name@, strs_v(tags@))
}

/// The rules as (channel or keyword, tags) pairs.
pub open spec fn yt_rules(s: Seq<ChannelTags>) -> Seq<(Seq<char>, Seq<Seq<char>>)> {
    s.map_values(|c: ChannelTags| rule_v(c.channel, c.tags))
}

pub open spec fn kw_rules(s: Seq<KeywordTags>) -> Seq<(Seq<char>, Seq<Seq<char>>)> {
    s.map_values(|k: KeywordTags| rule_v(k.keyword, k.tags))
}

/// The lower-case form of a text, as `str::to_lowercase` computes it.
pub uninterp spec fn lowercase(s: Seq<char>) -> Seq<char>;

/// Calls `str::to_lowercase`. Claimed: the result is the named value `lowercase` of the
/// argument (Unicode's lower-case mapping, which depends on the text alone).
#[verifier::external_body]
fn to_lower(s: &str) -> (r: String)
    ensures
        r@ == lowercase(s@),
{
    s.to_lowercase()
}

/// `p` occurs in `s`.
pub open spec fn has_sub(s: Seq<char>, p: Seq<char>) -> bool {
    exists|i: int| 0 <= i && i + p.len() <= s.len() && #[trigger] s.subrange(i, i + p.len()) == p
}

pub(crate) fn has_sub_exec(s: &Vec<char>, p: &Vec<char>) -> (b: bool)
    ensures
        b == has_sub(s@, p@),
{
    if p.len() > s.len() {
        return false;
    }
    let mut i: usize = 0;
    while i <= s.len() - p.len()
        invariant
            p.len() <= s.len(),
            i <= s.len() - p.len() + 1,
            forall|k: int| 0 <= k < i ==> #[trigger] s@.subrange(k, k + p.len()) != p@,
        decreases s.len() - i,
    {
        let mut j: usize = 0;
        while j < p.len() && s[i + j] == p[j]
            invariant
                i + p.len() <= s.len(),
                j <= p.len(),
                forall|m: int| 0 <= m < j ==> s@[i + m] == p@[m],
            decreases p.len() - j,
        {
            j = j + 1;
        }
        if j == p.len() {
            proof {
                assert(s@.subrange(i as int, i + p.len()) =~= p@);
            }
            return true;
        }
        proof {
            assert(s@.subrange(i as int, i + p.len())[j as int] != p@[j as int]);
        }
        i = i + 1;
    }
    proof {
        assert forall|k: int| 0 <= k && k + p.len() <= s.len() implies #[trigger] s@.subrange(k, k + p.len()) != p@ by {
            assert(k < i);
        }
    }
    false
}

pub fn copy_strings(v: &Vec<String>) -> (r: Vec<String>)
    ensures
        r@ == v@,
{
    let mut r: Vec<String> = Vec::new();
    let mut i: usize = 0;
    while i < v.len()
        invariant
            i <= v.len(),
            r@ == v@.take(i as int),
        decreases v.len() - i,
    {
        r.push(v[i].clone());
        proof {
            assert(v@.take(i + 1) == v@.take(i as int).push(v@[i as int]));
        }
        i = i + 1;
    }
    proof {
        assert(v@.take(v.len() as int) == v@);
    }
    r
}

/// Index of the first rule for `name`, or -1.
pub open spec fn rule_index(rules: Seq<(Seq<char>, Seq<Seq<char>>)>, name: Seq<char>) -> int
    decreases rules.len(),
{
    if rules.len() == 0 {
        -1
    } else if rule_index(rules.drop_last(), name) >= 0 {
        rule_index(rules.drop_last(), name)
    } else if rules.last().0 == name {
        rules.len() - 1
    } else {
        -1
    }
}

proof fn lemma_rule_index(rules: Seq<(Seq<char>, Seq<Seq<char>>)>, name: Seq<char>, n: int)
    requires
        0 <= n <= rules.len(),
        forall|k: int| 0 <= k < n ==> (#[trigger] rules[k]).0 != name,
    ensures
        rule_index(rules.take(n), name) == -1,
        n < rules.len() && rules[n].0 == name ==> rule_index(rules, name) == n,
        n == rules.len() ==> rule_index(rules, name) == -1,
    decreases n,
{
    if n > 0 {
        lemma_rule_index(rules, name, n - 1);
        assert(rules.take(n).drop_last() =~= rules.take(n - 1));
    }
    if n < rules.len() && rules[n].0 == name {
        if n == 0 {
            assert(rules.take(0) =~= Seq::<(Seq<char>, Seq<Seq<char>>)>::empty());
        }
        lemma_rule_index_found(rules, name, n, rules.len() as int);
        assert(rules.take(rules.len() as int) =~= rules);
    }
    if n == rules.len() {
        assert(rules.take(n) =~= rules);
    }
}

proof fn lemma_rule_index_found(rules: Seq<(Seq<char>, Seq<Seq<char>>)>, name: Seq<char>, n: int, m: int)
    requires
        0 <= n < m <= rules.len(),
        rules[n].0 == name,
        rule_index(rules.take(n), name) == -1,
    ensures
        rule_index(rules.take(m), name) == n,
    decreases m - n,
{
    if m == n + 1 {
        assert(rules.take(m).drop_last() =~= rules.take(n));
    } else {
        lemma_rule_index_found(rules, name, n, m - 1);
        assert(rules.take(m).drop_last() =~= rules.take(m - 1));
    }
    if m == rules.len() {
        assert(rules.take(m) =~= rules);
    }
}

/// The tags of every keyword rule whose keyword occurs in `text` (both taken in lower case), in
/// the order of the rules.
pub open spec fn keyword_tags(rules: Seq<(Seq<char>, Seq<Seq<char>>)>, text: Seq<char>) -> Seq<Seq<char>>
    decreases rules.len(),
{
    if rules.len() == 0 {
        Seq::empty()
    } else {
        keyword_tags(rules.drop_last(), text) + if has_sub(lowercase(text), lowercase(rules.last().0)) {
            rules.last().1
        } else {
            Seq::empty()
        }
    }
}

/// The tags of `add` that `old` does not hold, in order.
pub open spec fn new_tags(old: Seq<Seq<char>>, add: Seq<Seq<char>>) -> Seq<Seq<char>>
    decreases add.len(),
{
    if add.len() == 0 {
        Seq::empty()
    } else {
        new_tags(old, add.drop_last()) + if old.contains(add.last()) {
            Seq::empty()
        } else {
            seq![add.last()]
        }
    }
}

/// The rules after tags are added for `name`: appended to its first rule (those it does not
/// hold yet), or as a new rule at the end.
pub open spec fn rules_added(rules: Seq<(Seq<char>, Seq<Seq<char>>)>, name: Seq<char>, tags: Seq<Seq<char>>) -> Seq<(Seq<char>, Seq<Seq<char>>)> {
    let i = rule_index(rules, name);
    if i >= 0 {
        rules.update(i, (name, rules[i].1 + new_tags(rules[i].1, tags)))
    } else {
        rules.push((name, tags))
    }
}

proof fn lemma_new_tags_contained(old: Seq<Seq<char>>, add: Seq<Seq<char>>)
    requires
        forall|i: int| 0 <= i < add.len() ==> old.contains(#[trigger] add[i]),
    ensures
        new_tags(old, add) == Seq::<Seq<char>>::empty(),
    decreases add.len(),
{
    if add.len() > 0 {
        lemma_new_tags_contained(old, add.drop_last());
        assert(old.contains(add[add.len() - 1]));
        assert(new_tags(old, add) =~= Seq::<Seq<char>>::empty() + Seq::<Seq<char>>::empty());
    }
}

proof fn lemma_new_tags_cover(old: Seq<Seq<char>>, add: Seq<Seq<char>>)
    ensures
        forall|i: int| 0 <= i < add.len() ==> (old + new_tags(old, add)).contains(#[trigger] add[i]),
    decreases add.len(),
{
    if add.len() > 0 {
        let prev = new_tags(old, add.drop_last());
        lemma_new_tags_cover(old, add.drop_last());
        assert forall|i: int| 0 <= i < add.len() implies (old + new_tags(old, add)).contains(#[trigger] add[i]) by {
            let whole = old + new_tags(old, add);
            if i < add.len() - 1 {
                assert(add.drop_last()[i] == add[i]);
                assert((old + prev).contains(add[i]));
                let k = choose|k: int| 0 <= k < (old + prev).len() && (old + prev)[k] == add[i];
                assert(whole[k] == (old + prev)[k]);
            } else if old.contains(add.last()) {
                let k = choose|k: int| 0 <= k < old.len() && old[k] == add.last();
                assert(whole[k] == old[k]);
            } else {
                assert(whole[whole.len() - 1] == add.last());
            }
        }
    }
}

/// Adding the same tags for the same channel or keyword a second time changes nothing.
pub proof fn add_tags_idempotent(rules: Seq<(Seq<char>, Seq<Seq<char>>)>, name: Seq<char>, tags: Seq<Seq<char>>)
    ensures
        rules_added(rules_added(rules, name, tags), name, tags) == rules_added(rules, name, tags),
{
    let once = rules_added(rules, name, tags);
    let i = rule_index(rules, name);
    lemma_rule_index_first(rules, name);
    if i >= 0 {
        lemma_rule_index_keeps(rules, name, i, (name, rules[i].1 + new_tags(rules[i].1, tags)));
        lemma_new_tags_cover(rules[i].1, tags);
        lemma_new_tags_contained(rules[i].1 + new_tags(rules[i].1, tags), tags);
        assert(once[i].1 + Seq::<Seq<char>>::empty() =~= once[i].1);
        assert(once.update(i, (name, once[i].1)) =~= once);
    } else {
        lemma_rule_index_push(rules, name, tags);
        lemma_new_tags_cover(Seq::empty(), tags);
        assert forall|k: int| 0 <= k < tags.len() implies tags.contains(#[trigger] tags[k]) by {}
        lemma_new_tags_contained(tags, tags);
        assert(tags + Seq::<Seq<char>>::empty() =~= tags);
        assert(once.update(rules.len() as int, (name, tags)) =~= once);
    }
}

proof fn lemma_rule_index_keeps(rules: Seq<(Seq<char>, Seq<Seq<char>>)>, name: Seq<char>, i: int, e: (Seq<char>, Seq<Seq<char>>))
    requires
        0 <= i < rules.len(),
        rule_index(rules, name) == i,
        e.0 == name,
    ensures
        rule_index(rules.update(i, e), name) == i,
{
    lemma_rule_index_first(rules, name);
    let r2 = rules.update(i, e);
    assert forall|k: int| 0 <= k < i implies (#[trigger] r2[k]).0 != name by {
        assert(r2[k] == rules[k]);
    }
    lemma_rule_index(r2, name, i);
}

proof fn lemma_rule_index_first(rules: Seq<(Seq<char>, Seq<Seq<char>>)>, name: Seq<char>)
    ensures
        rule_index(rules, name) >= 0 ==> rule_index(rules, name) < rules.len() && rules[rule_index(rules, name)].0 == name
            && forall|k: int| 0 <= k < rule_index(rules, name) ==> (#[trigger] rules[k]).0 != name,
        rule_index(rules, name) < 0 ==> rule_index(rules, name) == -1 && forall|k: int| 0 <= k < rules.len() ==> (#[trigger] rules[k]).0 != name,
    decreases rules.len(),
{
    if rules.len() > 0 {
        lemma_rule_index_first(rules.drop_last(), name);
        assert forall|k: int| 0 <= k < rules.len() - 1 implies (#[trigger] rules[k]) == rules.drop_last()[k] by {}
    }
}

proof fn lemma_rule_index_push(rules: Seq<(Seq<char>, Seq<Seq<char>>)>, name: Seq<char>, tags: Seq<Seq<char>>)
    requires
        rule_index(rules, name) < 0,
    ensures
        rule_index(rules.push((name, tags)), name) == rules.len(),
{
    lemma_rule_index_first(rules, name);
    let r2 = rules.push((name, tags));
    assert(r2.drop_last() =~= rules);
}

fn contains_string(v: &Vec<String>, s: &String) -> (b: bool)
    ensures
        b == strs_v(v@).contains(s@),
{
    let mut i: usize = 0;
    while i < v.len()
        invariant
            i <= v.len(),
            forall|k: int| 0 <= k < i ==> v@[k]@ != s@,
        decreases v.len() - i,
    {
        if v[i] == *s {
            proof {
                assert(strs_v(v@)[i as int] == s@);
            }
            return true;
        }
        i = i + 1;
    }
    proof {
        if strs_v(v@).contains(s@) {
            let k = choose|k: int| 0 <= k < strs_v(v@).len() && strs_v(v@)[k] == s@;
            assert(v@[k]@ == s@);
        }
    }
    false
}

/// `old` followed by the tags of `add` it does not hold.
fn with_new_tags(old: &Vec<String>, add: &Vec<String>) -> (r: Vec<String>)
    ensures
        strs_v(r@) == strs_v(old@) + new_tags(strs_v(old@), strs_v(add@)),
{
    let mut r = copy_strings(old);
    let mut i: usize = 0;
    proof {
        assert(strs_v(add@).take(0) =~= Seq::<Seq<char>>::empty());
        assert(strs_v(r@) =~= strs_v(old@) + Seq::<Seq<char>>::empty());
    }
    while i < add.len()
        invariant
            i <= add.len(),
            strs_v(r@) == strs_v(old@) + new_tags(strs_v(old@), strs_v(add@).take(i as int)),
        decreases add.len() - i,
    {
        proof {
            assert(strs_v(add@).take(i + 1).drop_last() =~= strs_v(add@).take(i as int));
            assert(strs_v(add@).take(i + 1).last() == add@[i as int]@);
        }
        let ghost r0 = strs_v(r@);
        if !contains_string(old, &add[i]) {
            r.push(add[i].clone());
            proof {
                assert(strs_v(r@) =~= r0.push(add@[i as int]@));
                assert(strs_v(r@) =~= strs_v(old@) + new_tags(strs_v(old@), strs_v(add@).take(i + 1)));
            }
        } else {
            proof {
                assert(strs_v(r@) =~= strs_v(old@) + new_tags(strs_v(old@), strs_v(add@).take(i + 1)));
            }
        }
        i = i + 1;
    }
    proof {
        assert(strs_v(add@).take(add.len() as int) =~= strs_v(add@));
    }
    r
}

impl Config {
    pub fn new(keys: Keys, tags: Tags) -> (r: Config)
        ensures
            r.keys == keys,
            r.tags == tags,
    {
        Config { keys, tags }
    }

    /// The tags of the first rule for `channel`, if there is one.
    pub fn get_channel_tags(&self, channel: &str) -> (r: Option<Vec<String>>)
        ensures
            ({
                let rules = yt_rules(self.tags.yt_tag@);
                let i = rule_index(rules, channel@);
                match r {
                    Some(t) => i >= 0 && strs_v(t@) == rules[i].1,
                    None => i == -1,
                }
            }),
    {
        let ghost rules = yt_rules(self.tags.yt_tag@);
        let mut i: usize = 0;
        while i < self.tags.yt_tag.len()
            invariant
                i <= self.tags.yt_tag@.len(),
                rules == yt_rules(self.tags.yt_tag@),
                forall|k: int| 0 <= k < i ==> (#[trigger] rules[k]).0 != channel@,
            decreases self.tags.yt_tag.len() - i,
        {
            proof {
                assert(rules[i as int] == rule_v(self.tags.yt_tag@[i as int].channel, self.tags.yt_tag@[i as int].tags));
            }
            if crate::text::eq_str(&chars_of(self.tags.yt_tag[i].channel.as_str()), channel) {
                proof {
                    lemma_rule_index(rules, channel@, i as int);
                }
                return Some(copy_strings(&self.tags.yt_tag[i].tags));
            }
            i = i + 1;
        }
        proof {
            lemma_rule_index(rules, channel@, i as int);
        }
        None
    }

    /// The tags of every keyword rule whose keyword occurs in `text`, ignoring case.
    pub fn get_keyword_tags(&self, text: &str) -> (r: Vec<String>)
        ensures
            strs_v(r@) == keyword_tags(kw_rules(self.tags.kw_tag@), text@),
    {
        let ghost rules = kw_rules(self.tags.kw_tag@);
        let mut r: Vec<String> = Vec::new();
        let mut i: usize = 0;
        proof {
            assert(rules.take(0) =~= Seq::<(Seq<char>, Seq<Seq<char>>)>::empty());
            assert(strs_v(r@) =~= Seq::<Seq<char>>::empty());
        }
        while i < self.tags.kw_tag.len()
            invariant
                i <= self.tags.kw_tag@.len(),
                rules == kw_rules(self.tags.kw_tag@),
                strs_v(r@) == keyword_tags(rules.take(i as int), text@),
            decreases self.tags.kw_tag.len() - i,
        {
            proof {
                assert(rules.take(i + 1).drop_last() =~= rules.take(i as int));
                assert(rules.take(i + 1).last() == rule_v(self.tags.kw_tag@[i as int].keyword, self.tags.kw_tag@[i as int].tags));
            }
            let lt = chars_of(to_lower(text).as_str());
            let lk = chars_of(to_lower(self.tags.kw_tag[i].keyword.as_str()).as_str());
            if has_sub_exec(&lt, &lk) {
                let ghost r0 = strs_v(r@);
                let mut j: usize = 0;
                let tags = &self.tags.kw_tag[i].tags;
                while j < tags.len()
                    invariant
                        j <= tags@.len(),
                        strs_v(r@) == r0 + strs_v(tags@).take(j as int),
                    decreases tags.len() - j,
                {
                    let ghost rb = r@;
                    r.push(tags[j].clone());
                    proof {
                        assert(strs_v(r@) =~= strs_v(rb).push(tags@[j as int]@));
                        assert(strs_v(tags@).take(j + 1) =~= strs_v(tags@).take(j as int).push(tags@[j as int]@));
                        assert(strs_v(r@) =~= r0 + strs_v(tags@).take(j + 1));
                    }
                    j = j + 1;
                }
                proof {
                    assert(strs_v(tags@).take(tags@.len() as int) =~= strs_v(tags@));
                }
            } else {
                proof {
                    assert(strs_v(r@) =~= keyword_tags(rules.take(i as int), text@) + Seq::<Seq<char>>::empty());
                }
            }
            i = i + 1;
        }
        proof {
            assert(rules.take(self.tags.kw_tag@.len() as int) =~= rules);
        }
        r
    }
}

impl Tags {
    pub fn new(yt_tag: Vec<ChannelTags>, kw_tag: Vec<KeywordTags>) -> (r: Tags)
        ensures
            r.yt_tag == yt_tag,
            r.kw_tag == kw_tag,
    {
        Tags { yt_tag, kw_tag }
    }

    /// Adds tags for the videos of `channel`: to its first rule those it does not hold yet, or
    /// as a new rule.
    pub fn add_yt_tags(&mut self, channel: String, tags: Vec<String>)
        ensures
            yt_rules(final(self).yt_tag@) == rules_added(yt_rules(old(self).yt_tag@), channel@, strs_v(tags@)),
            final(self).kw_tag == old(self).kw_tag,
    {
        let ghost rules = yt_rules(self.yt_tag@);
        let mut i: usize = 0;
        while i < self.yt_tag.len()
            invariant
                i <= self.yt_tag@.len(),
                rules == yt_rules(self.yt_tag@),
                self.yt_tag == old(self).yt_tag,
                self.kw_tag == old(self).kw_tag,
                forall|k: int| 0 <= k < i ==> (#[trigger] rules[k]).0 != channel@,
            decreases self.yt_tag.len() - i,
        {
            proof {
                assert(rules[i as int] == rule_v(self.yt_tag@[i as int].channel, self.yt_tag@[i as int].tags));
            }
            if self.yt_tag[i].channel == channel {
                proof {
                    lemma_rule_index(rules, channel@, i as int);
                }
                let merged = with_new_tags(&self.yt_tag[i].tags, &tags);
                let ct = ChannelTags { channel, tags: merged };
                self.yt_tag.set(i, ct);
                proof {
                    assert(yt_rules(self.yt_tag@) =~= rules_added(rules, ct.channel@, strs_v(tags@)));
                }
                return;
            }
            i = i + 1;
        }
        proof {
            lemma_rule_index(rules, channel@, i as int);
        }
        let ghost ch = channel@;
        self.yt_tag.push(ChannelTags { channel, tags });
        proof {
            assert(yt_rules(self.yt_tag@) =~= rules_added(rules, ch, strs_v(tags@)));
        }
    }

    /// Adds tags for items whose title holds `kw`: to its first rule those it does not hold
    /// yet, or as a new rule.
    pub fn add_kw_tags(&mut self, kw: String, tags: Vec<String>)
        ensures
            kw_rules(final(self).kw_tag@) == rules_added(kw_rules(old(self).kw_tag@), kw@, strs_v(tags@)),
            final(self).yt_tag == old(self).yt_tag,
    {
        let ghost rules = kw_rules(self.kw_tag@);
        let mut i: usize = 0;
        while i < self.kw_tag.len()
            invariant
                i <= self.kw_tag@.len(),
                rules == kw_rules(self.kw_tag@),
                self.kw_tag == old(self).kw_tag,
                self.yt_tag == old(self).yt_tag,
                forall|k: int| 0 <= k < i ==> (#[trigger] rules[k]).0 != kw@,
            decreases self.kw_tag.len() - i,
        {
            proof {
                assert(rules[i as int] == rule_v(self.kw_tag@[i as int].keyword, self.kw_tag@[i as int].tags));
            }
            if self.kw_tag[i].keyword == kw {
                proof {
                    lemma_rule_index(rules, kw@, i as int);
                }
                let merged = with_new_tags(&self.kw_tag[i].tags, &tags);
                let kt = KeywordTags { keyword: kw, tags: merged };
                self.kw_tag.set(i, kt);
                proof {
                    assert(kw_rules(self.kw_tag@) =~= rules_added(rules, kt.keyword@, strs_v(tags@)));
                }
                return;
            }
            i = i + 1;
        }
        proof {
            lemma_rule_index(rules, kw@, i as int);
        }
        let ghost k = kw@;
        self.kw_tag.push(KeywordTags { keyword: kw, tags });
        proof {
            assert(kw_rules(self.kw_tag@) =~= rules_added(rules, k, strs_v(tags@)));
        }
    }
}

} // verus!
