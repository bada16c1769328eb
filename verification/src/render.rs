//! What rendering a site writes for each index: its pages (with their pagination) and its feed.

use vstd::prelude::*;
use crate::index::{Index, Syndicate};
use crate::text::{push_char, push_str};

verus! {

/// The decimal digit of a number below 10.
pub open spec fn decimal_digit(d: nat) -> char {
    (('0' as u32) + d) as char
}

/// A number in decimal, without leading zeros (as `{}` formats it).
pub open spec fn decimal_text(n: nat) -> Seq<char>
    decreases n,
{
    if n < 10 {
        seq![decimal_digit(n)]
    } else {
        decimal_text(n / 10).push(decimal_digit(n % 10))
    }
}

/// The character of a decimal digit.
fn digit_char(d: u64) -> (c: char)
    requires
        d < 10,
    ensures
        c == decimal_digit(d as nat),
{
    let digits: [char; 10] = ['0', '1', '2', '3', '4', '5', '6', '7', '8', '9'];
    digits[d as usize]
}

/// Formats a number in decimal (see `decimal_text`).
pub fn to_decimal(n: u64) -> (r: String)
    ensures
        r@ == decimal_text(n as nat),
    decreases n,
{
    let c = digit_char(n % 10);
    if n < 10 {
        let mut s = String::new();
        push_char(&mut s, c);
        proof {
            assert(s@ =~= decimal_text(n as nat));
        }
        s
    } else {
        let mut s = to_decimal(n / 10);
        push_char(&mut s, c);
        s
    }
}

/// The number of pages that `n` children take at `per_page` children a page.
pub open spec fn page_count(n: nat, per_page: nat) -> nat {
    (n / per_page + if n % per_page == 0 { 0nat } else { 1nat }) as nat
}

/// The number of pages that `n` children take at `per_page` children a page.
pub fn num_pages(n: usize, per_page: u32) -> (r: usize)
    requires
        per_page > 0,
    ensures
        r == page_count(n as nat, per_page as nat),
{
    let p: usize = per_page as usize;
    assert(n / p + (if n % p == 0 { 0int } else { 1int }) <= n) by (nonlinear_arith)
        requires
            p >= 1,
    {
        if p == 1 {
            assert(n % p == 0);
            assert(n / p == n);
        } else {
            assert(n / p <= n / 2);
        }
    }
    n / p + if n % p == 0 { 0 } else { 1 }
}

/// The href of the `k`-th page of the index on the page `name`: the page itself first, then
/// `{name}/index/{k}`.
pub open spec fn index_page_href(name: Seq<char>, k: nat) -> Seq<char> {
    if k == 0 {
        name
    } else {
        name + "/index/"@ + decimal_text(k)
    }
}

/// The href of the feed of the page `href`.
pub open spec fn feed_href_text(href: Seq<char>) -> Seq<char> {
    href + "/atom.xml"@
}

/// The href of the feed of a page: `{href}/atom.xml`.
pub fn feed_href(href: &str) -> (r: String)
    ensures
        r@ == feed_href_text(href@),
{
    let mut s = href.to_owned();
    push_str(&mut s, "/atom.xml");
    s
}

/// A stack of strings kept in one buffer, as `str_stack` provides it.
#[verifier::external_type_specification]
#[verifier::external_body]
pub struct ExStrStack(str_stack::StrStack);

/// The strings on a `str_stack::StrStack`, bottom first.
pub uninterp spec fn stacked_strings(s: str_stack::StrStack) -> Seq<Seq<char>>;

/// An empty stack of strings.
///
/// Trusted: `str_stack::StrStack::new` makes a stack that holds no string.
#[verifier::external_body]
fn empty_str_stack() -> (r: str_stack::StrStack)
    ensures
        stacked_strings(r) == Seq::<Seq<char>>::empty(),
{
    str_stack::StrStack::new()
}

/// Pushes a string onto a stack of strings and returns its position.
///
/// Trusted: `str_stack::StrStack::push` appends `t` to the stack's buffer and records where it
/// ends, so the stack holds the strings it held and then `t`; it returns the new length less
/// one. Like `String::push_str`, it fails only when memory runs out.
#[verifier::external_body]
fn push_str_stack(s: &mut str_stack::StrStack, t: &str) -> (r: usize)
    ensures
        stacked_strings(*final(s)) == stacked_strings(*old(s)).push(t@),
        r == stacked_strings(*old(s)).len(),
{
    s.push(t)
}

/// One page of an index to be written.
#[derive(Debug)]
pub struct IndexPage {
    /// Where the page goes, relative to the site's base.
    pub href: String,
    /// The children listed: those at positions `start..end`.
    pub start: usize,
    pub end: usize,
    /// The page's position in the pagination, if the index is paginated.
    pub current: Option<usize>,
}

/// The feed of an index.
#[derive(Debug)]
pub struct FeedPlan {
    /// The feed's href.
    pub href: String,
    /// The feed lists the first `count` children.
    pub count: usize,
}

/// What rendering an index writes.
#[derive(Debug)]
pub struct IndexPlan {
    /// The feed, if the index is syndicated.
    pub feed: Option<FeedPlan>,
    /// The hrefs of all pages of the pagination (none if the index is not paginated).
    pub page_hrefs: str_stack::StrStack,
    /// The pages to write.
    pub pages: Vec<IndexPage>,
}

/// The feed lists every child, or the first `max` of them.
pub open spec fn feed_count(n: nat, syndicate: Syndicate) -> nat {
    match syndicate.max {
        Some(m) => m as nat,
        None => n,
    }
}

/// The pages of a paginated index over `n` children: consecutive ranges that start at 0 and end
/// at `n`, each of `per_page` children but the last, which is not empty; a single empty page
/// when there are no children. The `k`-th page is at `index_page_href(name, k)`.
pub open spec fn is_pagination(name: Seq<char>, n: nat, per_page: nat, pages: Seq<IndexPage>) -> bool {
    &&& pages.len() > 0
    &&& pages[0].start == 0
    &&& pages.last().end == n
    &&& forall|k: int| 0 <= k < pages.len() ==> #[trigger] page_fits(name, n, per_page, pages, k)
    &&& (n == 0 ==> pages.len() == 1)
}

/// The `k`-th page of a pagination: at its href, its position recorded, and its range
/// followed directly by the next page's, full unless it is the last.
pub open spec fn page_fits(name: Seq<char>, n: nat, per_page: nat, pages: Seq<IndexPage>, k: int) -> bool {
    &&& pages[k].href@ == index_page_href(name, k as nat)
    &&& pages[k].current == Some(k as usize)
    &&& pages[k].start <= pages[k].end
    &&& (k < pages.len() - 1 ==> pages[k].end - pages[k].start == per_page && pages[k].end
        == pages[k + 1].start)
    &&& (n > 0 ==> pages[k].start < pages[k].end <= pages[k].start + per_page)
}

/// What rendering the index of the page `name`, over `n` children, writes: the feed
/// `{name}/atom.xml` listing the syndicated children, when syndicated; then either the pages of
/// the pagination (see `is_pagination`), or one page at `name` listing all children.
pub open spec fn is_index_plan(name: Seq<char>, n: nat, index: Index, plan: IndexPlan) -> bool {
    &&& match index.syndicate {
        None => plan.feed is None,
        Some(s) => plan.feed matches Some(f) && f.href@ == feed_href_text(name) && f.count
            == feed_count(n, s),
    }
    &&& match index.paginate {
        None => {
            &&& stacked_strings(plan.page_hrefs).len() == 0
            &&& plan.pages@.len() == 1
            &&& plan.pages@[0].href@ == name
            &&& plan.pages@[0].start == 0
            &&& plan.pages@[0].end == n
            &&& plan.pages@[0].current is None
        },
        Some(p) => {
            &&& is_pagination(name, n, p as nat, plan.pages@)
            &&& stacked_strings(plan.page_hrefs).len() == plan.pages@.len()
            &&& forall|k: int|
                0 <= k < plan.pages@.len() ==> #[trigger] stacked_strings(plan.page_hrefs)[k]
                    == plan.pages@[k].href@
        },
    }
}

/// The `k`-th page of a pagination starts after `k` full pages.
proof fn lemma_page_start(name: Seq<char>, n: nat, per_page: nat, pages: Seq<IndexPage>, k: int)
    requires
        is_pagination(name, n, per_page, pages),
        0 <= k < pages.len(),
    ensures
        pages[k].start == k * per_page,
    decreases k,
{
    if k > 0 {
        lemma_page_start(name, n, per_page, pages, k - 1);
        assert(page_fits(name, n, per_page, pages, k - 1));
        assert((k - 1) * per_page + per_page == k * per_page) by (nonlinear_arith);
    } else {
        assert(0 * per_page == 0) by (nonlinear_arith);
    }
}

/// A pagination of `n > 0` children, `per_page` to a page, has as many pages as `num_pages`
/// computes.
pub proof fn pagination_has_page_count(name: Seq<char>, n: nat, per_page: nat, pages: Seq<IndexPage>)
    requires
        per_page > 0,
        n > 0,
        is_pagination(name, n, per_page, pages),
    ensures
        pages.len() == page_count(n, per_page),
{
    let m = pages.len() as int;
    lemma_page_start(name, n, per_page, pages, m - 1);
    assert(page_fits(name, n, per_page, pages, m - 1));
    let s = (m - 1) * per_page;
    assert(pages[m - 1].start == s && pages[m - 1].end == n);
    assert(s < n <= s + per_page);
    if n == s + per_page {
        assert(n == m * per_page + 0) by (nonlinear_arith)
            requires
                n == s + per_page,
                s == (m - 1) * per_page,
        ;
        vstd::arithmetic::div_mod::lemma_fundamental_div_mod_converse(n as int, per_page as int, m, 0);
    } else {
        vstd::arithmetic::div_mod::lemma_fundamental_div_mod_converse(
            n as int,
            per_page as int,
            m - 1,
            n - s,
        );
    }
}

/// The href of the `k`-th page of an index (see `index_page_href`).
fn page_href(name: &str, k: usize) -> (r: String)
    ensures
        r@ == index_page_href(name@, k as nat),
{
    if k == 0 {
        name.to_owned()
    } else {
        let mut s = name.to_owned();
        push_str(&mut s, "/index/");
        let d = to_decimal(k as u64);
        push_str(&mut s, d.as_str());
        s
    }
}

/// Plans the pages of a paginated index (see `is_pagination`).
fn paginate(name: &str, n: usize, per_page: u32) -> (r: (str_stack::StrStack, Vec<IndexPage>))
    requires
        per_page > 0,
    ensures
        is_pagination(name@, n as nat, per_page as nat, r.1@),
        stacked_strings(r.0).len() == r.1@.len(),
        forall|k: int| 0 <= k < r.1@.len() ==> #[trigger] stacked_strings(r.0)[k] == r.1@[k].href@,
{
    let p: usize = per_page as usize;
    let mut hrefs = empty_str_stack();
    let mut pages: Vec<IndexPage> = Vec::new();
    let mut start: usize = 0;
    loop
        invariant_except_break
            pages@.len() > 0 ==> n > 0,
        invariant
            start <= n,
            p == per_page as nat,
            p > 0,
            stacked_strings(hrefs).len() == pages@.len(),
            pages@.len() == 0 ==> start == 0,
            pages@.len() > 0 ==> pages@.last().end == start,
            pages@.len() > 0 ==> pages@[0].start == 0,
            forall|k: int| 0 <= k < pages@.len() ==> #[trigger] stacked_strings(hrefs)[k] == pages@[k].href@,
            forall|k: int| 0 <= k < pages@.len() ==> #[trigger] page_fits(name@, n as nat, p as nat, pages@, k),
            pages@.len() > 0 ==> pages@.last().end < n ==> pages@.last().end - pages@.last().start == p,
        ensures
            is_pagination(name@, n as nat, per_page as nat, pages@),
            stacked_strings(hrefs).len() == pages@.len(),
            forall|k: int| 0 <= k < pages@.len() ==> #[trigger] stacked_strings(hrefs)[k] == pages@[k].href@,
        decreases n - start,
    {
        if start >= n && pages.len() > 0 {
            break;
        }
        let end: usize = if n - start > p { start + p } else { n };
        let k: usize = pages.len();
        let href = page_href(name, k);
        if start >= n {
            // No children: a single, empty page.
            push_str_stack(&mut hrefs, href.as_str());
            pages.push(IndexPage { href, start, end: start, current: Some(k) });
            proof {
                assert(pages@.len() == 1);
                assert(page_fits(name@, n as nat, p as nat, pages@, 0));
            }
            break;
        }
        let ghost old_pages = pages@;
        let ghost old_hrefs = stacked_strings(hrefs);
        push_str_stack(&mut hrefs, href.as_str());
        pages.push(IndexPage { href, start, end, current: Some(k) });
        proof {
            assert forall|j: int| 0 <= j < pages@.len() implies #[trigger] page_fits(
                name@,
                n as nat,
                p as nat,
                pages@,
                j,
            ) by {
                if j < pages@.len() - 1 {
                    assert(pages@[j] == old_pages[j]);
                    assert(page_fits(name@, n as nat, p as nat, old_pages, j));
                    if j == pages@.len() - 2 {
                        assert(old_pages.last() == old_pages[j]);
                    } else {
                        assert(pages@[j + 1] == old_pages[j + 1]);
                    }
                }
            }
            assert forall|j: int| 0 <= j < pages@.len() implies #[trigger] stacked_strings(hrefs)[j]
                == pages@[j].href@ by {
                if j < pages@.len() - 1 {
                    assert(stacked_strings(hrefs)[j] == old_hrefs[j]);
                    assert(pages@[j] == old_pages[j]);
                }
            }
        }
        start = end;
    }
    (hrefs, pages)
}

/// Plans what rendering the index of the page `name` writes, over `n` children (see
/// `is_index_plan`).
pub fn plan_index(name: &str, n: usize, index: &Index) -> (r: IndexPlan)
    requires
        index.paginate != Some(0u32),
        match index.syndicate {
            Some(s) => match s.max {
                Some(m) => m <= n,
                None => true,
            },
            None => true,
        },
    ensures
        is_index_plan(name@, n as nat, *index, r),
{
    let feed = match &index.syndicate {
        None => None,
        Some(s) => Some(
            FeedPlan {
                href: feed_href(name),
                count: match s.max {
                    Some(m) => m as usize,
                    None => n,
                },
            },
        ),
    };
    match index.paginate {
        None => {
            let mut pages: Vec<IndexPage> = Vec::new();
            pages.push(IndexPage { href: name.to_owned(), start: 0, end: n, current: None });
            IndexPlan { feed, page_hrefs: empty_str_stack(), pages }
        },
        Some(p) => {
            let (page_hrefs, pages) = paginate(name, n, p);
            IndexPlan { feed, page_hrefs, pages }
        },
    }
}

} // verus!
