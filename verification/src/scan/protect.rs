//! Branch names that are never touched, and the globs that name them.

use vstd::prelude::*;

use crate::git::{self, Error, Exchange, Git, Reading};
use crate::text;

verus! {

/// Whether `name` is what `pattern` becomes when each `*` is replaced by some
/// text, possibly none: a star ends here, or it takes in one more character.
pub open spec fn glob(pattern: Seq<char>, name: Seq<char>) -> bool
    decreases pattern.len() + name.len(),
{
    if pattern.len() == 0 {
        name.len() == 0
    } else if pattern[0] == '*' {
        ||| glob(pattern.drop_first(), name)
        ||| name.len() > 0 && glob(pattern, name.drop_first())
    } else {
        &&& name.len() > 0
        &&& name[0] == pattern[0]
        &&& glob(pattern.drop_first(), name.drop_first())
    }
}

/// `name` is protected by one of the patterns.
pub open spec fn protected(patterns: Seq<Seq<char>>, name: Seq<char>) -> bool {
    exists|i: int| 0 <= i < patterns.len() && glob(#[trigger] patterns[i], name)
}

/// The same relation over the literal parts between the stars, anchored at
/// the start of `name`.
spec fn parts_match(parts: Seq<Seq<char>>, name: Seq<char>) -> bool
    decreases parts.len(), name.len(), 0int,
{
    if parts.len() <= 1 {
        name == parts[0]
    } else {
        &&& parts[0].is_prefix_of(name)
        &&& parts_float(parts.drop_first(), name.skip(parts[0].len() as int))
    }
}

/// The parts match once some of `name` has been skipped.
spec fn parts_float(parts: Seq<Seq<char>>, name: Seq<char>) -> bool
    decreases parts.len(), name.len(), 1int,
{
    ||| parts_match(parts, name)
    ||| name.len() > 0 && parts_float(parts, name.drop_first())
}

/// Parts that match after `k` characters float.
proof fn lemma_floats(parts: Seq<Seq<char>>, name: Seq<char>, k: int)
    requires
        0 <= k <= name.len(),
        parts_match(parts, name.skip(k)),
    ensures
        parts_float(parts, name),
    decreases k,
{
    if k == 0 {
        assert(name.skip(0) =~= name);
    } else {
        assert(name.drop_first().skip(k - 1) =~= name.skip(k));
        lemma_floats(parts, name.drop_first(), k - 1);
    }
}

/// Where floating parts match.
proof fn lemma_float_place(parts: Seq<Seq<char>>, name: Seq<char>) -> (k: int)
    requires
        parts_float(parts, name),
    ensures
        0 <= k <= name.len(),
        parts_match(parts, name.skip(k)),
    decreases name.len(),
{
    if parts_match(parts, name) {
        assert(name.skip(0) =~= name);
        0
    } else {
        let k = lemma_float_place(parts, name.drop_first());
        assert(name.drop_first().skip(k) =~= name.skip(k + 1));
        k + 1
    }
}

/// Splitting, seen from the front.
proof fn lemma_split_front(s: Seq<char>, sep: char)
    requires
        s.len() > 0,
    ensures
        text::split(s.drop_first(), sep).len() > 0,
        s[0] == sep ==> text::split(s, sep) == seq![Seq::<char>::empty()] + text::split(s.drop_first(), sep),
        s[0] != sep ==> {
            let rest = text::split(s.drop_first(), sep);
            text::split(s, sep) == seq![seq![s[0]] + rest[0]] + rest.drop_first()
        },
    decreases s.len(),
{
    let rest = text::split(s.drop_first(), sep);
    lemma_split_nonempty(s.drop_first(), sep);
    if s.len() == 1 {
        assert(s.drop_first() =~= Seq::<char>::empty());
        assert(s.drop_last() =~= Seq::<char>::empty());
        let none = Seq::<char>::empty();
        assert(text::split(none, sep) =~= seq![none]);
        if s[0] == sep {
            assert(text::split(s, sep) =~= seq![none, none]);
        } else {
            assert(text::split(s, sep) =~= seq![none.push(s[0])]);
            assert(none.push(s[0]) =~= seq![s[0]] + none);
            assert(text::split(s, sep) =~= seq![seq![s[0]] + rest[0]] + rest.drop_first());
        }
    } else {
        let t = s.drop_last();
        lemma_split_front(t, sep);
        assert(t[0] == s[0]);
        assert(s.drop_first().drop_last() =~= t.drop_first());
        let inner = text::split(t.drop_first(), sep);
        let before = text::split(t, sep);
        if s.last() == sep {
            assert(rest == inner.push(Seq::<char>::empty()));
            if s[0] == sep {
                assert(text::split(s, sep) =~= seq![Seq::<char>::empty()] + rest);
            } else {
                assert(text::split(s, sep) =~= seq![seq![s[0]] + rest[0]] + rest.drop_first());
            }
        } else {
            assert(rest == inner.drop_last().push(inner.last().push(s.last())));
            if s[0] == sep {
                assert(text::split(s, sep) =~= seq![Seq::<char>::empty()] + rest);
            } else if inner.len() == 1 {
                assert((seq![s[0]] + inner[0]).push(s.last()) =~= seq![s[0]] + inner[0].push(
                    s.last(),
                ));
                assert(text::split(s, sep) =~= seq![seq![s[0]] + rest[0]] + rest.drop_first());
            } else {
                assert(text::split(s, sep) =~= seq![seq![s[0]] + rest[0]] + rest.drop_first());
            }
        }
    }
}

proof fn lemma_split_nonempty(s: Seq<char>, sep: char)
    ensures
        text::split(s, sep).len() > 0,
    decreases s.len(),
{
    if s.len() > 0 {
        lemma_split_nonempty(s.drop_last(), sep);
    }
}

/// Matching by parts is matching.
proof fn lemma_parts(pattern: Seq<char>, name: Seq<char>)
    ensures
        glob(pattern, name) == parts_match(text::split(pattern, '*'), name),
    decreases pattern.len() + name.len(),
{
    let parts = text::split(pattern, '*');
    if pattern.len() == 0 {
        assert(name.len() == 0 ==> name =~= parts[0]);
    } else {
        let tail = pattern.drop_first();
        let rest = text::split(tail, '*');
        lemma_split_front(pattern, '*');
        if pattern[0] == '*' {
            assert(parts.drop_first() =~= rest);
            assert(name.skip(0) =~= name);
            lemma_parts(tail, name);
            if name.len() > 0 {
                lemma_parts(pattern, name.drop_first());
                assert(name.drop_first().skip(0) =~= name.drop_first());
            }
            assert(parts[0].is_prefix_of(name));
            assert(parts_match(parts, name) == parts_float(rest, name));
            if name.len() > 0 {
                assert(parts[0].is_prefix_of(name.drop_first()));
                assert(parts_match(parts, name.drop_first()) == parts_float(
                    rest,
                    name.drop_first(),
                ));
            }
        } else if name.len() > 0 && name[0] == pattern[0] {
            let after = name.drop_first();
            lemma_parts(tail, after);
            if rest.len() == 1 {
                assert(name =~= seq![name[0]] + after);
                assert(after == rest[0] <==> name == parts[0]) by {
                    if name == parts[0] {
                        assert(after =~= rest[0]);
                    }
                }
            } else {
                assert(parts.drop_first() =~= rest.drop_first());
                let n = parts[0].len() as int;
                if rest[0].is_prefix_of(after) {
                    assert(parts[0].is_prefix_of(name)) by {
                        assert forall|i: int| 0 <= i < n implies parts[0][i] == name[i] by {
                            if i > 0 {
                                assert(rest[0][i - 1] == after.subrange(0, n - 1)[i - 1]);
                            }
                        }
                        assert(parts[0] =~= name.subrange(0, n));
                    }
                }
                if parts[0].is_prefix_of(name) {
                    assert forall|i: int| 0 <= i < rest[0].len() implies rest[0][i] == after[i] by {
                        assert(parts[0][i + 1] == name.subrange(0, n)[i + 1]);
                    }
                    assert(rest[0] =~= after.subrange(0, n - 1));
                    assert(name.skip(n) =~= after.skip(n - 1));
                }
            }
        } else {
            if rest.len() == 1 {
                if name == parts[0] {
                    assert(name[0] == pattern[0]);
                }
            } else if parts[0].is_prefix_of(name) {
                assert(parts[0][0] == name.subrange(0, parts[0].len() as int)[0]);
            }
        }
    }
}

/// What floats in a shorter tail floats in a longer one.
proof fn lemma_float_earlier(parts: Seq<Seq<char>>, name: Seq<char>, early: int, late: int)
    requires
        0 <= early <= late <= name.len(),
        parts_float(parts, name.skip(late)),
    ensures
        parts_float(parts, name.skip(early)),
{
    let tail = name.skip(late);
    let k = lemma_float_place(parts, tail);
    assert(tail.skip(k) =~= name.skip(early).skip(late - early + k));
    lemma_floats(parts, name.skip(early), late - early + k);
}

/// The leftmost place for a part is as good as any.
proof fn lemma_leftmost(parts: Seq<Seq<char>>, name: Seq<char>, at: int, found: Option<int>)
    requires
        parts.len() > 1,
        0 <= at <= name.len(),
        match found {
            Some(i) => {
                &&& at <= i
                &&& text::occurs_at(name, parts[0], i)
                &&& forall|k: int| at <= k < i ==> !text::occurs_at(name, parts[0], k)
            },
            None => forall|k: int| at <= k ==> !text::occurs_at(name, parts[0], k),
        },
    ensures
        parts_float(parts, name.skip(at)) == match found {
            Some(i) => parts_float(parts.drop_first(), name.skip(i + parts[0].len())),
            None => false,
        },
{
    let tail = name.skip(at);
    let n = parts[0].len() as int;
    if parts_float(parts, tail) {
        let k = lemma_float_place(parts, tail);
        assert(tail.skip(k) =~= name.skip(at + k));
        assert(parts[0] =~= name.subrange(at + k, at + k + n)) by {
            assert(parts[0] == name.skip(at + k).subrange(0, n));
        }
        assert(text::occurs_at(name, parts[0], at + k));
        let i = found->0;
        assert(found is Some && i <= at + k);
        assert(name.skip(at + k).skip(n) =~= name.skip(at + k + n));
        lemma_float_earlier(parts.drop_first(), name, i + n, at + k + n);
    }
    if let Some(i) = found {
        if parts_float(parts.drop_first(), name.skip(i + n)) {
            let k = i - at;
            assert(tail.skip(k) =~= name.skip(i));
            assert(parts[0] =~= name.skip(i).subrange(0, n));
            assert(name.skip(i).skip(n) =~= name.skip(i + n));
            lemma_floats(parts, tail, k);
        }
    }
}

/// Glob with any number of `*` wildcards (each matches any substring).
pub fn glob_match(pattern: &str, name: &str) -> (r: bool)
    ensures
        r == glob(pattern@, name@),
{
    let parts = text::split_on(pattern, '*');
    let ghost all = text::split(pattern@, '*');
    proof {
        lemma_parts(pattern@, name@);
    }
    let n = parts.len();
    assert(all.len() == n);
    if n == 1 {
        assert(parts@[0]@ == all[0]);
        return text::same(parts[0].as_str(), name);
    }
    let v = text::chars_of(name);
    if !text::starts(name, parts[0].as_str()) {
        return false;
    }
    let mut at: usize = text::char_count(parts[0].as_str());
    let mut i: usize = 1;
    assert(all.skip(1) =~= all.drop_first());
    while i < n - 1
        invariant
            1 <= i < n,
            n == parts@.len(),
            parts.deep_view() == all,
            v@ == name@,
            at <= name@.len(),
            glob(pattern@, name@) == parts_float(all.skip(i as int), name@.skip(at as int)),
        decreases n - i,
    {
        let part = text::chars_of(parts[i].as_str());
        assert(part@ == all[i as int]);
        assert(all.skip(i as int)[0] == all[i as int]);
        assert(all.skip(i as int).drop_first() =~= all.skip(i + 1));
        match text::find_from(&v, &part, at) {
            Some(k) => {
                proof {
                    lemma_leftmost(all.skip(i as int), name@, at as int, Some(k as int));
                }
                assert(k + part@.len() <= v@.len());
                let m = v.len();
                at = k + part.len();
            },
            None => {
                proof {
                    lemma_leftmost(all.skip(i as int), name@, at as int, None);
                }
                return false;
            },
        }
        i += 1;
    }
    let last = text::chars_of(parts[i].as_str());
    let ghost tail = name@.skip(at as int);
    assert(last@ == all[i as int]);
    assert(all.skip(i as int) =~= seq![all[i as int]]);
    proof {
        assert(parts_float(seq![last@], tail) ==> {
            &&& last@.len() <= tail.len()
            &&& text::occurs_at(name@, last@, name@.len() - last@.len())
        }) by {
            if parts_float(seq![last@], tail) {
                let k = lemma_float_place(seq![last@], tail);
                assert(tail.skip(k) == last@);
                assert(name@.subrange(name@.len() - last@.len(), name@.len() as int) =~= tail.skip(
                    k,
                ));
            }
        }
    }
    if v.len() - at < last.len() {
        return false;
    }
    let from = v.len() - last.len();
    let r = match text::find_from(&v, &last, from) {
        Some(k) => k == from,
        None => false,
    };
    proof {
        if r {
            let k = from - at;
            assert(tail.skip(k) =~= last@) by {
                assert(name@.subrange(from as int, from + last@.len()) == last@);
            }
            lemma_floats(seq![last@], tail, k);
        }
    }
    r
}

/// Whether one of the patterns protects `name`.
pub fn is_protected(name: &str, patterns: &Vec<String>) -> (r: bool)
    ensures
        r == protected(patterns.deep_view(), name@),
{
    let ghost all = patterns.deep_view();
    let mut i: usize = 0;
    while i < patterns.len()
        invariant
            i <= patterns@.len(),
            all == patterns.deep_view(),
            forall|k: int| 0 <= k < i ==> !glob(#[trigger] all[k], name@),
        decreases patterns@.len() - i,
    {
        if glob_match(patterns[i].as_str(), name) {
            assert(glob(all[i as int], name@));
            return true;
        }
        i += 1;
    }
    false
}

/// The names protected in every repository.
pub open spec fn default_protected() -> Seq<Seq<char>> {
    seq!["main"@, "master"@, "develop"@]
}

/// Patterns that name something.
pub open spec fn filled() -> spec_fn(Seq<char>) -> bool {
    |p: Seq<char>| p.len() > 0
}

/// Every text without the whitespace around it.
pub open spec fn all_trimmed(list: Seq<Seq<char>>) -> Seq<Seq<char>> {
    list.map_values(|p: Seq<char>| text::trim(p))
}

/// The comma-separated items of all the lines, in order.
pub open spec fn listed(rows: Seq<Seq<char>>) -> Seq<Seq<char>>
    decreases rows.len(),
{
    if rows.len() == 0 {
        Seq::empty()
    } else {
        listed(rows.drop_last()) + text::split(rows.last(), ',')
    }
}

/// What is protected: the defaults, what the configuration lists, and what
/// the caller adds, without the blank ones.
pub open spec fn patterns_from(config: (bool, Seq<char>), extra: Seq<Seq<char>>) -> Seq<Seq<char>> {
    let configured = if config.0 {
        listed(text::lines(config.1))
    } else {
        Seq::empty()
    };
    (default_protected() + all_trimmed(configured) + all_trimmed(extra)).filter(filled())
}

/// The command that reads the configured patterns.
pub open spec fn protect_args() -> Seq<Seq<char>> {
    seq!["config"@, "--get-all"@, "barber.protect"@]
}

/// Adds `raw` without the whitespace around it, unless nothing is left.
fn add_pattern(list: &mut Vec<String>, raw: &str)
    ensures
        final(list).deep_view() == old(list).deep_view() + seq![text::trim(raw@)].filter(filled()),
{
    let p = text::trimmed(raw);
    proof {
        let none = Seq::<Seq<char>>::empty();
        reveal(Seq::filter);
        assert(none.filter(filled()) =~= none);
        assert(seq![p@] =~= none.push(p@));
        none.lemma_filter_push(p@, filled());
    }
    let ghost start = list.deep_view();
    if p.as_str().is_empty() {
        assert(start + seq![p@].filter(filled()) =~= start);
    } else {
        list.push(p);
        assert(list.deep_view() =~= start.push(p@));
        assert(start + seq![p@].filter(filled()) =~= start.push(p@));
    }
}

/// Adds all of `raw` as [`add_pattern`] does.
fn add_patterns(list: &mut Vec<String>, raw: &Vec<String>)
    ensures
        final(list).deep_view() == old(list).deep_view() + all_trimmed(raw.deep_view()).filter(
            filled(),
        ),
{
    let ghost start = list.deep_view();
    let ghost all = all_trimmed(raw.deep_view());
    let mut i: usize = 0;
    proof {
        reveal(Seq::filter);
        assert(all.take(0) =~= Seq::<Seq<char>>::empty());
        assert(start + all.take(0).filter(filled()) =~= start);
    }
    while i < raw.len()
        invariant
            i <= raw@.len(),
            all == all_trimmed(raw.deep_view()),
            list.deep_view() == start + all.take(i as int).filter(filled()),
        decreases raw@.len() - i,
    {
        let ghost earlier = list.deep_view();
        add_pattern(list, raw[i].as_str());
        proof {
            let head = all.take(i as int);
            let one = seq![all[i as int]];
            assert(all.take(i + 1) =~= head + one);
            Seq::filter_distributes_over_add(head, one, filled());
            assert(start + head.filter(filled()) + one.filter(filled()) =~= start + (head.filter(
                filled(),
            ) + one.filter(filled())));
        }
        i += 1;
    }
    assert(all.take(i as int) =~= all);
}

/// [`protected_patterns`].
pub open spec fn read_protected(h: Seq<Exchange>, p: int, extra: Seq<Seq<char>>) -> Reading<
    Seq<Seq<char>>,
> {
    let config = git::read_attempt(h, p, protect_args());
    match config.value {
        Err(e) => config.failing(e),
        Ok(configured) => config.with(patterns_from(configured, extra)),
    }
}

/// The patterns in force: the defaults, those of `git config barber.protect`,
/// and `extra`.
pub fn protected_patterns<G: Git>(git: &mut G, extra: &[String]) -> (r: Result<Vec<String>, Error>)
    ensures
        read_protected(
            final(git).history(),
            old(git).history().len() as int,
            extra.deep_view(),
        ).is_told(
            old(git).history(),
            final(git).history(),
            match r {
                Ok(p) => Ok(p.deep_view()),
                Err(e) => Err(e@),
            },
        ),
{
    let reply = git.try_run(&["config", "--get-all", "barber.protect"]);
    assert(git.history().last().args =~= protect_args());
    let (ok, out) = match reply {
        Ok(pair) => pair,
        Err(e) => return Err(e),
    };
    let mut patterns: Vec<String> = Vec::new();
    patterns.push("main".to_owned());
    patterns.push("master".to_owned());
    patterns.push("develop".to_owned());
    assert(patterns.deep_view() =~= default_protected());
    let ghost configured = if ok {
        listed(text::lines(out@))
    } else {
        Seq::<Seq<char>>::empty()
    };
    proof {
        reveal_strlit("main");
        reveal_strlit("master");
        reveal_strlit("develop");
        lemma_all_kept(default_protected());
    }
    let ghost defaults = default_protected().filter(filled());
    if ok {
        let rows = text::lines_of(out.as_str());
        let ghost all = text::lines(out@);
        let mut i: usize = 0;
        proof {
            reveal(Seq::filter);
            assert(all.take(0) =~= Seq::<Seq<char>>::empty());
            assert(all_trimmed(listed(all.take(0))) =~= Seq::<Seq<char>>::empty());
            assert(defaults + all_trimmed(listed(all.take(0))).filter(filled()) =~= defaults);
        }
        while i < rows.len()
            invariant
                i <= rows@.len(),
                rows.deep_view() == all,
                patterns.deep_view() == defaults + all_trimmed(listed(all.take(i as int))).filter(
                    filled(),
                ),
            decreases rows@.len() - i,
        {
            let items = text::split_on(rows[i].as_str(), ',');
            assert(rows@[i as int]@ == all[i as int]);
            add_patterns(&mut patterns, &items);
            proof {
                let head = listed(all.take(i as int));
                let more = text::split(all[i as int], ',');
                assert(all.take(i + 1).drop_last() =~= all.take(i as int));
                assert(all_trimmed(head + more) =~= all_trimmed(head) + all_trimmed(more));
                Seq::filter_distributes_over_add(all_trimmed(head), all_trimmed(more), filled());
                assert(defaults + all_trimmed(head).filter(filled()) + all_trimmed(more).filter(
                    filled(),
                ) =~= defaults + (all_trimmed(head).filter(filled()) + all_trimmed(more).filter(
                    filled(),
                )));
            }
            i += 1;
        }
        assert(all.take(i as int) =~= all);
    } else {
        proof {
            reveal(Seq::filter);
            assert(all_trimmed(configured) =~= Seq::<Seq<char>>::empty());
            assert(defaults + all_trimmed(configured).filter(filled()) =~= defaults);
        }
    }
    let more = text::copies(extra);
    add_patterns(&mut patterns, &more);
    proof {
        let a = default_protected();
        let b = all_trimmed(configured);
        let c = all_trimmed(extra.deep_view());
        Seq::filter_distributes_over_add(a, b, filled());
        Seq::filter_distributes_over_add(a + b, c, filled());
    }
    Ok(patterns)
}

/// Nothing is dropped from a list of filled texts.
proof fn lemma_all_kept(list: Seq<Seq<char>>)
    requires
        forall|i: int| 0 <= i < list.len() ==> (#[trigger] list[i]).len() > 0,
    ensures
        list.filter(filled()) == list,
    decreases list.len(),
{
    reveal(Seq::filter);
    if list.len() > 0 {
        lemma_all_kept(list.drop_last());
        assert(list.drop_last().push(list.last()) =~= list);
    }
}

// ---------------------------------------------------------------------------
// What protection promises.

/// A pattern without a star protects the branch of that name and no other.
pub proof fn law_plain_pattern_is_a_name(pattern: Seq<char>, name: Seq<char>)
    requires
        !pattern.contains('*'),
    ensures
        glob(pattern, name) == (pattern == name),
    decreases pattern.len(),
{
    if pattern.len() == 0 {
        assert(name.len() == 0 ==> pattern =~= name);
    } else {
        assert(pattern[0] != '*') by {
            assert(pattern.contains(pattern[0]));
        }
        let tail = pattern.drop_first();
        assert(!tail.contains('*')) by {
            if tail.contains('*') {
                let k = choose|k: int| 0 <= k < tail.len() && tail[k] == '*';
                assert(pattern[k + 1] == '*');
            }
        }
        if name.len() > 0 {
            law_plain_pattern_is_a_name(tail, name.drop_first());
            if name[0] == pattern[0] && tail == name.drop_first() {
                assert(pattern =~= seq![pattern[0]] + tail);
                assert(name =~= seq![name[0]] + name.drop_first());
            }
        }
    }
}

/// A star at the end takes in whatever follows: `release/*` protects exactly
/// the branches that begin with `release/`.
pub proof fn law_trailing_star_takes_the_rest(prefix: Seq<char>, name: Seq<char>)
    requires
        !prefix.contains('*'),
    ensures
        glob(prefix.push('*'), name) == prefix.is_prefix_of(name),
    decreases prefix.len(),
{
    let pattern = prefix.push('*');
    if prefix.len() == 0 {
        lemma_star_alone(name);
        assert(pattern =~= seq!['*']);
        assert(prefix =~= name.subrange(0, 0));
    } else {
        assert(prefix[0] != '*') by {
            assert(prefix.contains(prefix[0]));
        }
        let tail = prefix.drop_first();
        assert(!tail.contains('*')) by {
            if tail.contains('*') {
                let k = choose|k: int| 0 <= k < tail.len() && tail[k] == '*';
                assert(prefix[k + 1] == '*');
            }
        }
        assert(pattern.drop_first() =~= tail.push('*'));
        if name.len() > 0 {
            law_trailing_star_takes_the_rest(tail, name.drop_first());
            if name[0] == prefix[0] && tail.is_prefix_of(name.drop_first()) {
                assert(prefix =~= name.subrange(0, prefix.len() as int)) by {
                    assert forall|k: int| 0 <= k < prefix.len() implies prefix[k] == name[k] by {
                        if k > 0 {
                            assert(tail[k - 1] == name.drop_first()[k - 1]);
                        }
                    }
                }
            }
            if prefix.is_prefix_of(name) {
                assert(prefix[0] == name.subrange(0, prefix.len() as int)[0]);
                assert(tail =~= name.drop_first().subrange(0, tail.len() as int)) by {
                    assert forall|k: int| 0 <= k < tail.len() implies tail[k]
                        == name.drop_first()[k] by {
                        assert(prefix[k + 1] == name.subrange(0, prefix.len() as int)[k + 1]);
                    }
                }
            }
        }
    }
}

/// A star alone matches everything.
proof fn lemma_star_alone(name: Seq<char>)
    ensures
        glob(seq!['*'], name),
    decreases name.len(),
{
    let star = seq!['*'];
    assert(star.drop_first() =~= Seq::<char>::empty());
    if name.len() > 0 {
        lemma_star_alone(name.drop_first());
    } else {
        assert(glob(star.drop_first(), name));
    }
}

/// The default branches are protected whatever the configuration says.
pub proof fn law_defaults_are_always_protected(config: (bool, Seq<char>), extra: Seq<Seq<char>>)
    ensures
        protected(patterns_from(config, extra), "main"@),
        protected(patterns_from(config, extra), "master"@),
        protected(patterns_from(config, extra), "develop"@),
{
    reveal_strlit("main");
    reveal_strlit("master");
    reveal_strlit("develop");
    let configured = if config.0 {
        listed(text::lines(config.1))
    } else {
        Seq::empty()
    };
    let more = all_trimmed(configured) + all_trimmed(extra);
    let all = default_protected() + all_trimmed(configured) + all_trimmed(extra);
    assert(all =~= default_protected() + more);
    Seq::filter_distributes_over_add(default_protected(), more, filled());
    lemma_all_kept(default_protected());
    let patterns = patterns_from(config, extra);
    assert(patterns =~= default_protected() + more.filter(filled()));
    assert(patterns[0] == "main"@ && patterns[1] == "master"@ && patterns[2] == "develop"@);
    law_plain_pattern_is_a_name("main"@, "main"@);
    law_plain_pattern_is_a_name("master"@, "master"@);
    law_plain_pattern_is_a_name("develop"@, "develop"@);
}

} // verus!
