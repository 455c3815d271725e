//! Link extraction from an HTML page: every anchor's `href`, with the set of
//! distinct texts the page shows for it; and the classification of links.
use crate::text::{concat, has_prefix};
use scraper::{Html, Selector};
use vstd::prelude::*;

verus! {

/// The anchors (`<a>` elements) of an HTML document, in the order in which
/// scraper's `select` yields them (the order of the parsed tree), each
/// with its `href` attribute, if any, and its text nodes in order.
pub uninterp spec fn html_anchors(html: Seq<char>) -> Seq<(Option<Seq<char>>, Seq<Seq<char>>)>;

/// Parses a document with the `scraper` crate and lists its anchors.
///
/// Trusted: calls `Html::parse_document`, selects `a` elements, and for each
/// reads the `href` attribute and the text nodes; the contract only names
/// the result (`html_anchors`), since HTML parsing takes pages to state.
#[verifier::external_body]
fn parse_anchors(html: &str) -> (anchors: Vec<(Option<String>, Vec<String>)>)
    ensures
        anchors.deep_view() == html_anchors(html@),
{
    let document = Html::parse_document(html);
    let selector = Selector::parse("a").unwrap();
    document
        .select(&selector)
        .map(|e| (e.value().attr("href").map(|h| h.to_string()), e.text().map(|t| t.to_string()).collect()))
        .collect()
}

/// `parts.join(" ")`.
pub open spec fn join_with_space(parts: Seq<Seq<char>>) -> Seq<char>
    decreases parts.len(),
{
    if parts.len() == 0 {
        Seq::empty()
    } else if parts.len() == 1 {
        parts[0]
    } else {
        join_with_space(parts.drop_last()) + seq![' '] + parts.last()
    }
}

/// Each link with the set of texts shown for it, after the given anchors;
/// anchors without `href` are skipped.
pub open spec fn link_map(anchors: Seq<(Option<Seq<char>>, Seq<Seq<char>>)>) -> Map<
    Seq<char>,
    Set<Seq<char>>,
>
    decreases anchors.len(),
{
    if anchors.len() == 0 {
        Map::empty()
    } else {
        let m = link_map(anchors.drop_last());
        match anchors.last().0 {
            Some(href) => {
                let texts = if m.contains_key(href) {
                    m[href]
                } else {
                    Set::empty()
                };
                m.insert(href, texts.insert(join_with_space(anchors.last().1)))
            },
            None => m,
        }
    }
}

/// `links` lists the links of `m`, each once, with its texts, each once.
pub open spec fn represents(links: Seq<(String, Vec<String>)>, m: Map<Seq<char>, Set<Seq<char>>>) -> bool {
    &&& forall|i: int, j: int| 0 <= i < j < links.len() ==> links[i].0@ != links[j].0@
    &&& forall|i: int| 0 <= i < links.len() ==> m.contains_key(#[trigger] links[i].0@)
    &&& forall|i: int, s: Seq<char>|
        #![trigger m[links[i].0@].contains(s)]
        #![trigger links[i].1.deep_view().contains(s)]
        0 <= i < links.len() ==> (m[links[i].0@].contains(s) <==> links[i].1.deep_view().contains(s))
    &&& forall|i: int, a: int, b: int|
        0 <= i < links.len() && 0 <= a < b < links[i].1.len() ==> #[trigger] links[i].1[a]@
            != #[trigger] links[i].1[b]@
    &&& forall|k: Seq<char>|
        #[trigger] m.contains_key(k) ==> exists|i: int| 0 <= i < links.len() && links[i].0@ == k
}

/// `parts.join(" ")`.
pub fn join_words(parts: &Vec<String>) -> (joined: String)
    ensures
        joined@ == join_with_space(parts.deep_view()),
{
    let mut out = String::new();
    let n = parts.len();
    let mut i: usize = 0;
    proof {
        assert(parts.deep_view().take(0) =~= Seq::<Seq<char>>::empty());
    }
    while i < n
        invariant
            n == parts.len(),
            i <= n,
            out@ == join_with_space(parts.deep_view().take(i as int)),
        decreases n - i,
    {
        let ghost prev = parts.deep_view().take(i as int);
        let ghost next = parts.deep_view().take(i + 1);
        assert(next.drop_last() =~= prev);
        assert(next.last() == parts[i as int]@);
        if i > 0 {
            out.append(" ");
            proof {
                reveal_strlit(" ");
            }
        }
        out.append(parts[i].as_str());
        proof {
            if i == 0 {
                assert(out@ =~= next[0]);
            } else {
                assert(out@ =~= join_with_space(prev) + seq![' '] + next.last());
            }
        }
        i = i + 1;
    }
    assert(parts.deep_view().take(n as int) =~= parts.deep_view());
    out
}

proof fn lemma_push_contains(s: Seq<Seq<char>>, t: Seq<char>, x: Seq<char>)
    ensures
        s.push(t).contains(x) <==> (s.contains(x) || x == t),
{
    if s.contains(x) {
        let i = choose|i: int| 0 <= i < s.len() && s[i] == x;
        assert(s.push(t)[i] == x);
    }
    if x == t {
        assert(s.push(t)[s.len() as int] == x);
    }
    if s.push(t).contains(x) {
        let i = choose|i: int| 0 <= i < s.push(t).len() && s.push(t)[i] == x;
        if i < s.len() {
            assert(s[i] == x);
        }
    }
}

/// The index of the link `href` in `links`, if it is there.
fn find_link(links: &Vec<(String, Vec<String>)>, href: &String) -> (found: Option<usize>)
    ensures
        match found {
            Some(j) => j < links@.len() && links@[j as int].0@ == href@,
            None => forall|i: int| 0 <= i < links@.len() ==> links@[i].0@ != href@,
        },
{
    let mut j: usize = 0;
    while j < links.len()
        invariant
            j <= links.len(),
            forall|i: int| 0 <= i < j ==> links@[i].0@ != href@,
        decreases links.len() - j,
    {
        if links[j].0 == *href {
            return Some(j);
        }
        j = j + 1;
    }
    None
}

/// Whether `text` is among `texts`.
fn contains_text(texts: &Vec<String>, text: &String) -> (seen: bool)
    ensures
        seen == texts.deep_view().contains(text@),
{
    let mut a: usize = 0;
    while a < texts.len()
        invariant
            a <= texts.len(),
            forall|b: int| 0 <= b < a ==> texts@[b]@ != text@,
        decreases texts.len() - a,
    {
        if texts[a] == *text {
            assert(texts.deep_view()[a as int] == text@);
            return true;
        }
        a = a + 1;
    }
    assert forall|b: int| 0 <= b < texts.deep_view().len() implies texts.deep_view()[b] != text@ by {
        assert(texts.deep_view()[b] == texts@[b]@);
    }
    false
}

/// Every link on the page, each once, with the distinct texts shown for it,
/// each once.
pub fn extract_links(html: &str) -> (links: Vec<(String, Vec<String>)>)
    ensures
        represents(links@, link_map(html_anchors(html@))),
{
    let anchors = parse_anchors(html);
    group_links(&anchors)
}

/// Groups anchors (each an optional `href` with its text nodes) into links
/// with the distinct texts shown for each: the texts of an anchor are joined
/// with spaces, and anchors without `href` are skipped.
pub fn group_links(anchors: &Vec<(Option<String>, Vec<String>)>) -> (links: Vec<(String, Vec<String>)>)
    ensures
        represents(links@, link_map(anchors.deep_view())),
{
    let ghost all = anchors.deep_view();
    let mut links: Vec<(String, Vec<String>)> = Vec::new();
    let n = anchors.len();
    let mut k: usize = 0;
    proof {
        assert(all.take(0) =~= Seq::<(Option<Seq<char>>, Seq<Seq<char>>)>::empty());
    }
    while k < n
        invariant
            n == anchors.len(),
            all == anchors.deep_view(),
            k <= n,
            represents(links@, link_map(all.take(k as int))),
        decreases n - k,
    {
        let ghost before = links@;
        let ghost m0 = link_map(all.take(k as int));
        let ghost m1 = link_map(all.take(k + 1));
        assert(all.take(k + 1).drop_last() =~= all.take(k as int));
        assert(all.take(k + 1).last() == all[k as int]);
        let anchor = &anchors[k];
        match &anchor.0 {
            None => {
                assert(m1 == m0);
            },
            Some(href) => {
                let text = join_words(&anchor.1);
                let ghost h = href@;
                let ghost t = text@;
                assert(all[k as int].0 == Some(h));
                assert(all[k as int].1 == anchor.1.deep_view());
                assert(t == join_with_space(all[k as int].1));
                let ghost old_texts = if m0.contains_key(h) { m0[h] } else { Set::<Seq<char>>::empty() };
                assert(m1 == m0.insert(h, old_texts.insert(t)));
                let found = find_link(&links, href);
                if let Some(j) = found {
                    let seen = contains_text(&links[j].1, &text);
                    if seen {
                        proof {
                            assert(m0.contains_key(h));
                            assert(m0[h].contains(t));
                            assert(old_texts.insert(t) =~= old_texts);
                            assert(m1 =~= m0);
                        }
                    } else {
                        let (key, mut texts) = links.remove(j);
                        let ghost old_dv = texts.deep_view();
                        texts.push(text);
                        proof {
                            assert(texts.deep_view() =~= old_dv.push(t));
                            assert(!old_dv.contains(t));
                        }
                        links.insert(j, (key, texts));
                        proof {
                            assert(links@ =~= before.update(j as int, (key, texts)));
                            assert forall|s: Seq<char>| texts.deep_view().contains(s) <==> (
                                old_dv.contains(s) || s == t) by {
                                lemma_push_contains(old_dv, t, s);
                            }
                            assert(m0.contains_key(h));
                            assert forall|i: int, s: Seq<char>|
                                0 <= i < links@.len() implies (#[trigger] m1[links@[i].0@].contains(
                                    s) <==> links@[i].1.deep_view().contains(s)) by {
                                if i != j {
                                    assert(links@[i] == before[i]);
                                    assert(before[i].0@ != h);
                                }
                            }
                            assert forall|i: int, a: int, b: int|
                                0 <= i < links@.len() && 0 <= a < b < links@[i].1.len()
                                    implies #[trigger] links@[i].1[a]@
                                != #[trigger] links@[i].1[b]@ by {
                                if i != j {
                                    assert(links@[i] == before[i]);
                                } else if b == links@[i].1.len() - 1 {
                                    assert(links@[i].1[a]@ == old_dv[a]);
                                    assert(old_dv.contains(old_dv[a]));
                                } else {
                                    assert(links@[i].1[a] == before[i].1[a]);
                                    assert(links@[i].1[b] == before[i].1[b]);
                                }
                            }
                            assert forall|kk: Seq<char>| #[trigger] m1.contains_key(kk) implies exists|i: int|
                                0 <= i < links@.len() && links@[i].0@ == kk by {
                                let i = choose|i: int| 0 <= i < before.len() && before[i].0@ == kk;
                                if i == j {
                                    assert(links@[i].0@ == kk);
                                } else {
                                    assert(links@[i] == before[i]);
                                }
                            }
                            assert forall|i: int, i2: int| 0 <= i < i2 < links@.len() implies links@[i].0@
                                != links@[i2].0@ by {
                                if i != j && i2 != j {
                                    assert(links@[i] == before[i] && links@[i2] == before[i2]);
                                } else if i == j {
                                    assert(links@[i2] == before[i2]);
                                } else {
                                    assert(links@[i] == before[i]);
                                }
                            }
                        }
                    }
                } else {
                    let mut texts: Vec<String> = Vec::new();
                    texts.push(text);
                    links.push((href.clone(), texts));
                    proof {
                        assert(!m0.contains_key(h));
                        assert(texts.deep_view() =~= seq![t]);
                        let last = links@.len() - 1;
                        assert(links@[last].0@ == h);
                        assert forall|s: Seq<char>| texts.deep_view().contains(s) <==> s == t by {
                            if s == t {
                                assert(texts.deep_view()[0] == t);
                            }
                        }
                        assert forall|i: int| 0 <= i < before.len() implies links@[i] == before[i] by {}
                        assert forall|kk: Seq<char>| #[trigger] m1.contains_key(kk) implies exists|i: int|
                            0 <= i < links@.len() && links@[i].0@ == kk by {
                            if kk == h {
                                assert(links@[last].0@ == kk);
                            } else {
                                let i = choose|i: int| 0 <= i < before.len() && before[i].0@ == kk;
                                assert(links@[i] == before[i]);
                            }
                        }
                        assert forall|i: int, s: Seq<char>|
                            0 <= i < links@.len() implies (#[trigger] m1[links@[i].0@].contains(s)
                            <==> links@[i].1.deep_view().contains(s)) by {
                            if i < before.len() {
                                assert(links@[i] == before[i]);
                            }
                        }
                        assert forall|i: int, a: int, b: int|
                            0 <= i < links@.len() && 0 <= a < b < links@[i].1.len()
                                implies #[trigger] links@[i].1[a]@ != #[trigger] links@[i].1[b]@ by {
                            if i < before.len() {
                                assert(links@[i] == before[i]);
                            }
                        }
                    }
                }
            },
        }
        k = k + 1;
    }
    assert(all.take(n as int) =~= all);
    links
}

/// How a link found on a page is to be read.
#[derive(Debug, Clone, Copy, PartialEq, Eq, Structural)]
pub enum LinkKind {
    /// Starts with `/`: a path on the page's own site.
    Relative,
    /// Starts with `https://` or `http://`.
    Absolute,
    /// Anything else.
    Invalid,
}

pub open spec fn spec_link_kind(link: Seq<char>) -> LinkKind {
    if seq!['/'].is_prefix_of(link) {
        LinkKind::Relative
    } else if "https://"@.is_prefix_of(link) || "http://"@.is_prefix_of(link) {
        LinkKind::Absolute
    } else {
        LinkKind::Invalid
    }
}

/// A link is relative exactly when its first character is `/` (the bare
/// `/` included); otherwise it is absolute exactly when it starts with
/// `https://` or `http://`; and a relative link resolves to the base URL
/// followed by the link.
pub proof fn lemma_link_kinds(link: Seq<char>)
    ensures
        spec_link_kind(link) == LinkKind::Relative <==> (link.len() > 0 && link[0] == '/'),
        spec_link_kind(link) == LinkKind::Absolute <==> (!(link.len() > 0 && link[0] == '/') && (
        "https://"@.is_prefix_of(link) || "http://"@.is_prefix_of(link))),
{
    if link.len() > 0 && link[0] == '/' {
        assert(seq!['/'] =~= link.subrange(0, 1));
    }
    if seq!['/'].is_prefix_of(link) {
        assert(link.subrange(0, 1)[0] == link[0]);
    }
}

pub fn classify_link(link: &str) -> (kind: LinkKind)
    ensures
        kind == spec_link_kind(link@),
{
    proof {
        reveal_strlit("/");
    }
    if has_prefix(link, "/") {
        LinkKind::Relative
    } else if has_prefix(link, "https://") || has_prefix(link, "http://") {
        LinkKind::Absolute
    } else {
        LinkKind::Invalid
    }
}

/// The address a link points to from a page of `base_url`: the base joined
/// with a relative link, an absolute link as it is, and none for an invalid one.
pub fn resolve_link(base_url: &str, link: &str) -> (url: Option<String>)
    ensures
        match spec_link_kind(link@) {
            LinkKind::Relative => url matches Some(u) && u@ == base_url@ + link@,
            LinkKind::Absolute => url matches Some(u) && u@ == link@,
            LinkKind::Invalid => url is None,
        },
{
    match classify_link(link) {
        LinkKind::Relative => Some(concat(base_url, link)),
        LinkKind::Absolute => Some(String::from_str(link)),
        LinkKind::Invalid => None,
    }
}

} // verus!
