//! Pages kept as local markdown files: a YAML front matter between `---` lines, then the body.
use crate::error::{AppError, ErrorV};
use crate::text::{
    char_vec, find_chars, find_spec, string_of, strip_leading, strip_trailing, sub_chars, trim_start_chars,
    trim_start_spec,
};
use vstd::prelude::*;
use vstd::string::*;

verus! {

/// What the front matter of a page file records.
pub struct PageMeta {
    pub page_id: String,
    pub title: String,
    pub space: String,
    pub version: i64,
    pub url: String,
}

/// A page file split in two: the YAML text of its front matter and its body.
pub struct Frontmatter {
    pub yaml: String,
    pub body: String,
}

/// The delimiter around the front matter.
pub open spec fn delimiter() -> Seq<char> {
    seq!['-', '-', '-']
}

/// How `split_frontmatter` splits `content`: after leading white space it must start
/// with `---`; the YAML runs to the next `---`, the body follows it without its leading
/// newlines.
pub open spec fn frontmatter_split(content: Seq<char>) -> Result<(Seq<char>, Seq<char>), ErrorV> {
    let t = trim_start_spec(content);
    if t.len() < 3 || t.take(3) != delimiter() {
        Err(ErrorV::Config("Missing frontmatter (expected ---) "@))
    } else {
        let after = t.skip(3);
        let end = find_spec(after, delimiter());
        if end < 0 {
            Err(ErrorV::Config("Unclosed frontmatter (missing closing ---)"@))
        } else {
            Ok((after.take(end), strip_leading(after.skip(end + 3), '\n')))
        }
    }
}

/// Splits a page file into its front matter's YAML text and its body.
pub fn split_frontmatter(content: &str) -> (r: Result<Frontmatter, AppError>)
    ensures
        match r {
            Ok(f) => frontmatter_split(content@) == Ok::<(Seq<char>, Seq<char>), ErrorV>((f.yaml@, f.body@)),
            Err(e) => frontmatter_split(content@) == Err::<(Seq<char>, Seq<char>), ErrorV>(e@),
        },
{
    let cs = char_vec(content);
    let t = trim_start_chars(&cs);
    if t.len() < 3 || t[0] != '-' || t[1] != '-' || t[2] != '-' {
        proof {
            if t@.len() >= 3 {
                assert(t@.take(3) != delimiter()) by {
                    if t@.take(3) == delimiter() {
                        assert(t@.take(3)[0] == t@[0]);
                        assert(t@.take(3)[1] == t@[1]);
                        assert(t@.take(3)[2] == t@[2]);
                    }
                }
            }
        }
        return Err(AppError::Config("Missing frontmatter (expected ---) ".to_owned()));
    }
    assert(t@.take(3) =~= delimiter());
    let after = sub_chars(&t, 3, t.len());
    assert(after@ =~= t@.skip(3));
    let delim: Vec<char> = vec!['-', '-', '-'];
    assert(delim@ =~= delimiter());
    match find_chars(&after, &delim) {
        None => Err(AppError::Config("Unclosed frontmatter (missing closing ---)".to_owned())),
        Some(end) => {
            proof { crate::text::lemma_find_from(after@, delim@, 0); }
            let yaml = sub_chars(&after, 0, end);
            let mut k: usize = end + 3;
            assert(after@.skip(k as int) =~= after@.skip(end + 3));
            while k < after.len() && after[k] == '\n'
                invariant
                    end + 3 <= k <= after.len(),
                    strip_leading(after@.skip(end + 3), '\n') == strip_leading(after@.skip(k as int), '\n'),
                decreases after.len() - k,
            {
                assert(after@.skip(k as int).drop_first() =~= after@.skip(k + 1));
                k = k + 1;
            }
            let body = sub_chars(&after, k, after.len());
            assert(body@ =~= after@.skip(k as int));
            assert(yaml@ =~= after@.take(end as int));
            Ok(Frontmatter { yaml: string_of(&yaml), body: string_of(&body) })
        },
    }
}

/// The front matter block for a YAML text: `---`, a newline, the YAML, `---` and a newline.
pub open spec fn frontmatter_block(yaml: Seq<char>) -> Seq<char> {
    delimiter() + seq!['\n'] + yaml + delimiter() + seq!['\n']
}

/// The front matter block that holds `yaml`.
pub fn frontmatter_text(yaml: &str) -> (r: String)
    ensures
        r@ == frontmatter_block(yaml@),
{
    let mut s = String::new();
    s.append("---\n");
    s.append(yaml);
    s.append("---\n");
    proof {
        reveal_strlit("---\n");
    }
    assert(s@ =~= frontmatter_block(yaml@));
    s
}

/// The address of a page: the site's address without trailing slashes, then
/// `/wiki/pages/viewpage.action?pageId=` and the page's id.
pub open spec fn page_url(base_url: Seq<char>, page_id: Seq<char>) -> Seq<char> {
    strip_trailing(base_url, '/') + "/wiki/pages/viewpage.action?pageId="@ + page_id
}

/// `s` without its trailing slashes.
pub fn trim_trailing_slashes(s: &str) -> (r: String)
    ensures
        r@ == strip_trailing(s@, '/'),
{
    let cs = char_vec(s);
    let mut n: usize = cs.len();
    assert(cs@.take(n as int) =~= cs@);
    while n > 0 && cs[n - 1] == '/'
        invariant
            n <= cs.len(),
            cs@ == s@,
            strip_trailing(s@, '/') == strip_trailing(cs@.take(n as int), '/'),
        decreases n,
    {
        assert(cs@.take(n as int).drop_last() =~= cs@.take(n - 1));
        n = n - 1;
    }
    let t = sub_chars(&cs, 0, n);
    assert(t@ =~= cs@.take(n as int));
    string_of(&t)
}

impl PageMeta {
    /// The address of a page on a site.
    pub fn build_url(base_url: &str, page_id: &str) -> (r: String)
        ensures
            r@ == page_url(base_url@, page_id@),
    {
        let mut s = trim_trailing_slashes(base_url);
        s.append("/wiki/pages/viewpage.action?pageId=");
        s.append(page_id);
        s
    }
}

/// Reading back a written page file gives what was written: a file made of the front
/// matter block for `yaml`, a newline and `body` splits into the YAML (after the newline
/// that opens the block) and the body without its leading newlines, provided that no
/// `---` starts inside the YAML or runs from it into the closing delimiter.
pub proof fn law_frontmatter_roundtrip(yaml: Seq<char>, body: Seq<char>)
    requires
        find_spec(seq!['\n'] + yaml + seq!['-', '-'], delimiter()) == -1,
    ensures
        frontmatter_split(frontmatter_block(yaml) + seq!['\n'] + body)
            == Ok::<(Seq<char>, Seq<char>), ErrorV>((seq!['\n'] + yaml, strip_leading(body, '\n'))),
{
    let d = delimiter();
    let content = frontmatter_block(yaml) + seq!['\n'] + body;
    let after = seq!['\n'] + yaml + d + seq!['\n', '\n'] + body;
    assert(content =~= d + after);
    assert(trim_start_spec(content) == content) by {
        assert(content[0] == '-');
    }
    assert(content.take(3) =~= d);
    assert(content.skip(3) =~= after);
    let e: int = 1 + yaml.len() as int;
    assert(find_spec(after, d) == e) by {
        lemma_closing_delimiter(yaml, body);
    }
    assert(after.take(e) =~= seq!['\n'] + yaml);
    assert(after.skip(e + 3) =~= seq!['\n', '\n'] + body);
    let s2 = seq!['\n', '\n'] + body;
    let s1 = seq!['\n'] + body;
    assert(s2.drop_first() =~= s1);
    assert(s1.drop_first() =~= body);
    assert(s2[0] == '\n' && s1[0] == '\n');
    assert(strip_leading(s1, '\n') == strip_leading(body, '\n'));
    assert(strip_leading(s2, '\n') == strip_leading(body, '\n'));
    assert(content.len() >= 3);
}

proof fn lemma_closing_delimiter(yaml: Seq<char>, body: Seq<char>)
    requires
        find_spec(seq!['\n'] + yaml + seq!['-', '-'], delimiter()) == -1,
    ensures
        find_spec(seq!['\n'] + yaml + delimiter() + seq!['\n', '\n'] + body, delimiter()) == 1 + yaml.len(),
{
    let d = delimiter();
    let after = seq!['\n'] + yaml + d + seq!['\n', '\n'] + body;
    let pre = seq!['\n'] + yaml + seq!['-', '-'];
    let e: int = 1 + yaml.len() as int;
    assert(after.subrange(e, e + 3) =~= d);
    crate::text::lemma_find_from(pre, d, 0);
    assert forall|j: int| 0 <= j < e implies !crate::text::occurs_at(after, d, j) by {
        assert(!crate::text::occurs_at(pre, d, j));
        assert(pre.subrange(j, j + 3) =~= after.subrange(j, j + 3));
    }
    crate::text::lemma_find_first(after, d, 0, e);
}

} // verus!
