use vstd::prelude::*;
use vstd::string::StrSliceExecFns;

verus! {

/// Characters that separate tokens in a description.
pub open spec fn is_wspace(c: char) -> bool {
    c == ' ' || c == '\t' || c == '\n' || c == '\r'
}

/// A token is a tag when it begins with `#`.
pub open spec fn is_tag(t: Seq<char>) -> bool {
    t.len() > 0 && t[0] == '#'
}

/// The whitespace-delimited tokens of `s`, in order. `cur` is the part of the
/// current token already read when the scan stands at the head of `s`.
pub open spec fn split_acc(s: Seq<char>, cur: Seq<char>) -> Seq<Seq<char>>
    decreases s.len(),
{
    if s.len() == 0 {
        if cur.len() > 0 {
            seq![cur]
        } else {
            Seq::empty()
        }
    } else if is_wspace(s[0]) {
        if cur.len() > 0 {
            seq![cur] + split_acc(s.drop_first(), Seq::empty())
        } else {
            split_acc(s.drop_first(), Seq::empty())
        }
    } else {
        split_acc(s.drop_first(), cur.push(s[0]))
    }
}

/// The whitespace-delimited tokens of a description, in order.
pub open spec fn tokens_of(s: Seq<char>) -> Seq<Seq<char>> {
    split_acc(s, Seq::empty())
}

/// The set of tags among a sequence of tokens.
pub open spec fn tag_set(tokens: Seq<Seq<char>>) -> Set<Seq<char>>
    decreases tokens.len(),
{
    if tokens.len() == 0 {
        Set::empty()
    } else if is_tag(tokens.last()) {
        tag_set(tokens.drop_last()).insert(tokens.last())
    } else {
        tag_set(tokens.drop_last())
    }
}

/// The tag set of a description: its `#`-prefixed whitespace-delimited
/// tokens, as a set (order irrelevant, duplicates collapsed).
pub open spec fn tags_of(s: Seq<char>) -> Set<Seq<char>> {
    tag_set(tokens_of(s))
}

/// The views of a vector of strings, in order.
pub open spec fn views_of(ts: Seq<String>) -> Seq<Seq<char>> {
    Seq::new(ts.len(), |i: int| ts[i]@)
}

/// The views of a vector of strings, as a set.
pub open spec fn strs_set(ts: Seq<String>) -> Set<Seq<char>>
    decreases ts.len(),
{
    if ts.len() == 0 {
        Set::empty()
    } else {
        strs_set(ts.drop_last()).insert(ts.last()@)
    }
}

/// No two strings of the vector read the same.
pub open spec fn no_dup_views(ts: Seq<String>) -> bool {
    forall|i: int, j: int| 0 <= i < j < ts.len() ==> ts[i]@ != ts[j]@
}

/// `strs_set` holds exactly the views of the vector's elements.
pub proof fn lemma_strs_set_contains(ts: Seq<String>, t: Seq<char>)
    ensures
        strs_set(ts).contains(t) <==> exists|i: int| 0 <= i < ts.len() && ts[i]@ == t,
    decreases ts.len(),
{
    if ts.len() > 0 {
        lemma_strs_set_contains(ts.drop_last(), t);
        if strs_set(ts).contains(t) {
            if ts.last()@ == t {
                assert(ts[ts.len() - 1]@ == t);
            } else {
                let i = choose|i: int| 0 <= i < ts.drop_last().len() && ts.drop_last()[i]@ == t;
                assert(ts[i]@ == t);
            }
        }
        if exists|i: int| 0 <= i < ts.len() && ts[i]@ == t {
            let i = choose|i: int| 0 <= i < ts.len() && ts[i]@ == t;
            if i < ts.len() - 1 {
                assert(ts.drop_last()[i]@ == t);
            }
        }
    }
}

/// Whether some string of `ts` reads as `t`.
fn contains_str(ts: &Vec<String>, t: &str) -> (r: bool)
    ensures
        r == strs_set(ts@).contains(t@),
{
    let needle: String = t.to_owned();
    let mut i: usize = 0;
    proof {
        lemma_strs_set_contains(ts@, t@);
    }
    while i < ts.len()
        invariant
            i <= ts@.len(),
            needle@ == t@,
            forall|k: int| 0 <= k < i ==> ts@[k]@ != t@,
            strs_set(ts@).contains(t@) <==> exists|k: int| 0 <= k < ts@.len() && ts@[k]@ == t@,
        decreases ts@.len() - i,
    {
        if ts[i] == needle {
            return true;
        }
        i = i + 1;
    }
    false
}

/// Splits a description into its whitespace-delimited tokens.
fn split_tokens(s: &str) -> (r: Vec<String>)
    ensures
        views_of(r@) == tokens_of(s@),
{
    let n = s.unicode_len();
    let mut out: Vec<String> = Vec::new();
    let mut start: usize = 0;
    let mut i: usize = 0;
    proof {
        assert(s@.skip(0) =~= s@);
        assert(s@.subrange(0, 0) =~= Seq::<char>::empty());
        assert(views_of(out@) + split_acc(s@, Seq::empty()) =~= split_acc(s@, Seq::empty()));
    }
    while i < n
        invariant
            n == s@.len(),
            start <= i <= n,
            tokens_of(s@) == views_of(out@) + split_acc(
                s@.skip(i as int),
                s@.subrange(start as int, i as int),
            ),
        decreases n - i,
    {
        let ghost cur = s@.subrange(start as int, i as int);
        proof {
            assert(s@.skip(i as int)[0] == s@[i as int]);
            assert(s@.skip(i as int).drop_first() =~= s@.skip(i as int + 1));
        }
        let c = s.get_char(i);
        if c == ' ' || c == '\t' || c == '\n' || c == '\r' {
            if start < i {
                let tok: String = s.substring_char(start, i).to_owned();
                proof {
                    assert(views_of(out@.push(tok)) =~= views_of(out@).push(cur));
                    assert(views_of(out@).push(cur) + split_acc(
                        s@.skip(i as int + 1),
                        Seq::empty(),
                    ) =~= views_of(out@) + (seq![cur] + split_acc(
                        s@.skip(i as int + 1),
                        Seq::empty(),
                    )));
                }
                out.push(tok);
            }
            i = i + 1;
            start = i;
            proof {
                assert(s@.subrange(start as int, i as int) =~= Seq::<char>::empty());
            }
        } else {
            i = i + 1;
            proof {
                assert(cur.push(s@[i - 1]) =~= s@.subrange(start as int, i as int));
            }
        }
    }
    let ghost cur = s@.subrange(start as int, i as int);
    proof {
        assert(s@.skip(i as int) =~= Seq::<char>::empty());
    }
    if start < n {
        let tok: String = s.substring_char(start, n).to_owned();
        proof {
            assert(views_of(out@.push(tok)) =~= views_of(out@).push(cur));
            assert(views_of(out@) + seq![cur] =~= views_of(out@).push(cur));
        }
        out.push(tok);
    } else {
        proof {
            assert(views_of(out@) + Seq::<Seq<char>>::empty() =~= views_of(out@));
        }
    }
    out
}

/// The tags of a description: its `#`-prefixed whitespace-delimited tokens,
/// deduplicated, in order of first occurrence.
pub fn collect_tags(ds: &str) -> (r: Vec<String>)
    ensures
        strs_set(r@) == tags_of(ds@),
        no_dup_views(r@),
{
    let toks = split_tokens(ds);
    let ghost tv = views_of(toks@);
    let mut out: Vec<String> = Vec::new();
    let mut i: usize = 0;
    while i < toks.len()
        invariant
            i <= toks@.len(),
            tv == views_of(toks@),
            tv == tokens_of(ds@),
            strs_set(out@) == tag_set(tv.subrange(0, i as int)),
            no_dup_views(out@),
        decreases toks@.len() - i,
    {
        let t = &toks[i];
        proof {
            assert(tv[i as int] == t@);
            assert(tv.subrange(0, i as int + 1).drop_last() =~= tv.subrange(0, i as int));
            assert(tv.subrange(0, i as int + 1).last() == tv[i as int]);
        }
        let keep = t.unicode_len() > 0 && t.get_char(0) == '#';
        if keep && !contains_str(&out, t.as_str()) {
            let tok = t.clone();
            proof {
                assert(strs_set(out@.push(tok)).contains(tok@)) by {
                    assert(out@.push(tok).drop_last() =~= out@);
                }
                assert(out@.push(tok).drop_last() =~= out@);
                lemma_strs_set_contains(out@, t@);
                lemma_strs_set_contains(out@.push(tok), t@);
            }
            out.push(tok);
        } else if keep {
            proof {
                assert(tag_set(tv.subrange(0, i as int)).insert(t@) =~= tag_set(
                    tv.subrange(0, i as int),
                ));
            }
        }
        i = i + 1;
    }
    proof {
        assert(tv.subrange(0, toks@.len() as int) =~= tv);
    }
    out
}

/// Whether the entry's tags cover every tag of the filter: true exactly when
/// the filter's tag set is a subset of the entry's tag set. An empty filter
/// is covered by every entry.
pub fn matches_filter(entry_tags: &Vec<String>, filter_tags: &Vec<String>) -> (r: bool)
    ensures
        r == strs_set(filter_tags@).subset_of(strs_set(entry_tags@)),
{
    let mut i: usize = 0;
    while i < filter_tags.len()
        invariant
            i <= filter_tags@.len(),
            forall|k: int|
                0 <= k < i ==> strs_set(entry_tags@).contains(#[trigger] filter_tags@[k]@),
        decreases filter_tags@.len() - i,
    {
        if !contains_str(entry_tags, filter_tags[i].as_str()) {
            proof {
                lemma_strs_set_contains(filter_tags@, filter_tags@[i as int]@);
            }
            return false;
        }
        i = i + 1;
    }
    proof {
        assert forall|t: Seq<char>|
            strs_set(filter_tags@).contains(t) implies strs_set(entry_tags@).contains(t) by {
            lemma_strs_set_contains(filter_tags@, t);
        }
    }
    true
}

/// An empty filter matches every tag set: the empty set is a subset of all.
pub proof fn lemma_empty_filter_matches(entry_tags: Set<Seq<char>>)
    ensures
        Set::<Seq<char>>::empty().subset_of(entry_tags),
{
}

} // verus!
