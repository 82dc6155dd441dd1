use vstd::prelude::*;
use vstd::string::*;

verus! {

/// Leading path text that marks a legacy branch artifact rather than a component.
pub open spec fn legacy_prefix() -> Seq<char> {
    seq!['m', 'a', 's', 't', 'e', 'r']
}

/// Whether `s` begins with `prefix`.
pub open spec fn starts_with(s: Seq<char>, prefix: Seq<char>) -> bool {
    prefix.len() <= s.len() && s.take(prefix.len() as int) == prefix
}

/// Whether a changed path counts at all: it holds a `/` and does not start with the
/// legacy prefix.
pub open spec fn is_component_path(path: Seq<char>) -> bool {
    path.contains('/') && !starts_with(path, legacy_prefix())
}

/// The component of a path: the text before its first `/`. None when the path holds
/// no `/` or starts with the legacy prefix.
pub open spec fn component_of(path: Seq<char>) -> Option<Seq<char>> {
    if is_component_path(path) {
        Some(path.take(path.index_of_first('/')->0))
    } else {
        None
    }
}

/// The text after the last `.` of a path, or the whole path when it holds no `.`.
pub open spec fn last_dot_segment(path: Seq<char>) -> Seq<char> {
    match path.index_of_last('.') {
        Some(i) => path.skip(i + 1),
        None => path,
    }
}

/// The language tag of a path: its last `.`-separated segment, unless that segment
/// still holds a `/`.
pub open spec fn language_of(path: Seq<char>) -> Option<Seq<char>> {
    let candidate = last_dot_segment(path);
    if candidate.contains('/') {
        None
    } else {
        Some(candidate)
    }
}

/// Whether a commit summary carries the pull-request marker `(#`.
pub open spec fn has_pr_marker(summary: Seq<char>) -> bool {
    exists|i: int| 0 <= i && i + 1 < summary.len() && #[trigger] summary[i] == '(' && summary[i + 1] == '#'
}

/// The languages that are counted; any other tag is ignored.
pub open spec fn interesting_languages() -> Set<Seq<char>> {
    set![
        "java"@, "js"@, "css"@, "clj"@, "scala"@, "kt"@, "groovy"@, "j2"@, "properties"@,
        "sh"@, "xsd"@, "xml"@, "yaml"@, "yml"@, "py"@,
    ]
}

/// Pattern of a pull-request reference in a commit summary; group 1 is the number.
pub const PR_PATTERN: &'static str = r"\(#(\d+)\)";

/// Text of capture group 1 in the leftmost-first match of the regular expression
/// `pattern` in `text`; none when the pattern does not compile, does not match, or its
/// group 1 takes no part in the match.
pub uninterp spec fn regex_first_group(pattern: Seq<char>, text: Seq<char>) -> Option<Seq<char>>;

/// Relies on regex's `Regex::new` and `Regex::captures`: group 1 of the leftmost-first
/// match of `pattern` in `text`, none when the pattern does not compile, does not match,
/// or its group 1 takes no part in the match.
#[verifier::external_body]
fn first_group(pattern: &str, text: &str) -> (r: Option<String>)
    ensures
        r.deep_view() == regex_first_group(pattern@, text@),
{
    let re = match regex::Regex::new(pattern) {
        Ok(re) => re,
        Err(_) => return None,
    };
    let caps = re.captures(text)?;
    let group = caps.get(1)?;
    Some(group.as_str().to_owned())
}

/// The pull-request number that a commit summary cites as `(#<digits>)`, if any.
pub fn extract_pr_from_commit_message(commit_message: &str) -> (r: Option<String>)
    ensures
        r.deep_view() == regex_first_group(PR_PATTERN@, commit_message@),
{
    first_group(PR_PATTERN, commit_message)
}

/// The characters of `s`, in order.
pub fn chars_of(s: &str) -> (r: Vec<char>)
    ensures
        r@ == s@,
{
    let mut v: Vec<char> = Vec::new();
    for c in it: s.chars()
        invariant
            it.seq() == s@,
            v@ == it.seq().take(it.index() as int),
    {
        v.push(c);
    }
    v
}

/// Whether `s` holds the character `c`.
fn holds_char(s: &Vec<char>, from: usize, c: char) -> (r: bool)
    requires
        from <= s.len(),
    ensures
        r == s@.skip(from as int).contains(c),
{
    let mut i = from;
    while i < s.len()
        invariant
            from <= i <= s.len(),
            forall|j: int| from <= j < i ==> s@[j] != c,
        decreases s.len() - i,
    {
        if s[i] == c {
            assert(s@.skip(from as int)[i - from] == c);
            return true;
        }
        i = i + 1;
    }
    proof {
        if s@.skip(from as int).contains(c) {
            let k = choose|k: int| 0 <= k < s@.skip(from as int).len() && s@.skip(from as int)[k] == c;
            assert(s@[from + k] == c);
        }
    }
    false
}

/// Whether `s` begins with the legacy prefix.
fn starts_with_legacy_prefix(s: &Vec<char>) -> (r: bool)
    ensures
        r == starts_with(s@, legacy_prefix()),
{
    if s.len() < 6 {
        return false;
    }
    let r = s[0] == 'm' && s[1] == 'a' && s[2] == 's' && s[3] == 't' && s[4] == 'e' && s[5] == 'r';
    assert(r == (s@.take(6) =~= legacy_prefix()));
    r
}

/// Whether `a` holds the same characters as `b`.
fn same_text(a: &Vec<char>, b: &str) -> (r: bool)
    ensures
        r == (a@ == b@),
{
    let t = chars_of(b);
    if a.len() != t.len() {
        return false;
    }
    let mut i: usize = 0;
    while i < a.len()
        invariant
            i <= a.len() == t.len(),
            t@ == b@,
            forall|j: int| 0 <= j < i ==> a@[j] == t@[j],
        decreases a.len() - i,
    {
        if a[i] != t[i] {
            return false;
        }
        i = i + 1;
    }
    assert(a@ =~= t@);
    true
}

/// Whether a language tag is one of the counted languages.
pub fn is_interesting_language(lang: &str) -> (r: bool)
    ensures
        r == interesting_languages().contains(lang@),
{
    let s = chars_of(lang);
    same_text(&s, "java") || same_text(&s, "js") || same_text(&s, "css") || same_text(&s, "clj")
        || same_text(&s, "scala") || same_text(&s, "kt") || same_text(&s, "groovy")
        || same_text(&s, "j2") || same_text(&s, "properties") || same_text(&s, "sh")
        || same_text(&s, "xsd") || same_text(&s, "xml") || same_text(&s, "yaml")
        || same_text(&s, "yml") || same_text(&s, "py")
}

/// Whether a commit summary carries the pull-request marker `(#`.
pub fn is_pr_summary(summary: &str) -> (r: bool)
    ensures
        r == has_pr_marker(summary@),
{
    let s = chars_of(summary);
    let mut i: usize = 0;
    while i < s.len()
        invariant
            i <= s.len(),
            s@ == summary@,
            forall|j: int| 0 <= j < i && j + 1 < s.len() ==> !(#[trigger] s@[j] == '(' && s@[j + 1] == '#'),
        decreases s.len() - i,
    {
        if i + 1 < s.len() && s[i] == '(' && s[i + 1] == '#' {
            return true;
        }
        i = i + 1;
    }
    false
}

/// Whether a changed path counts: it holds a `/` and does not start with the legacy
/// prefix.
pub fn is_component_file(filename: &str) -> (r: bool)
    ensures
        r == is_component_path(filename@),
{
    let s = chars_of(filename);
    assert(s@.skip(0) == s@);
    holds_char(&s, 0, '/') && !starts_with_legacy_prefix(&s)
}

/// The component of a changed path: the text before its first `/`; none when the path
/// holds no `/` or starts with the legacy prefix.
pub fn extract_component_name_from_filename(filename: &str) -> (r: Option<String>)
    ensures
        r.deep_view() == component_of(filename@),
{
    let s = chars_of(filename);
    if starts_with_legacy_prefix(&s) {
        return None;
    }
    let mut i: usize = 0;
    while i < s.len()
        invariant
            i <= s.len(),
            s@ == filename@,
            !starts_with(s@, legacy_prefix()),
            forall|j: int| 0 <= j < i ==> s@[j] != '/',
        decreases s.len() - i,
    {
        if s[i] == '/' {
            proof {
                assert(s@.contains('/')) by {
                    assert(s@[i as int] == '/');
                }
                s@.index_of_first_ensures('/');
                let k = s@.index_of_first('/')->0;
                assert(k == i) by {
                    if k < i {
                        assert(s@[k] != '/');
                    } else if k > i {
                        assert(s@[i as int] != '/');
                    }
                }
            }
            return Some(filename.substring_char(0, i).to_owned());
        }
        i = i + 1;
    }
    None
}

/// The language tag of a changed path: the text after its last `.` (the whole path
/// when it holds none), unless that text still holds a `/`.
pub fn extract_language_from_filename(filename: &str) -> (r: Option<String>)
    ensures
        r.deep_view() == language_of(filename@),
{
    let s = chars_of(filename);
    let mut i: usize = s.len();
    while i > 0
        invariant
            i <= s.len(),
            s@ == filename@,
            forall|j: int| i <= j < s.len() ==> s@[j] != '.',
        decreases i,
    {
        if s[i - 1] == '.' {
            proof {
                s@.index_of_last_ensures('.');
            }
            if holds_char(&s, i, '/') {
                return None;
            }
            return Some(filename.substring_char(i, s.len()).to_owned());
        }
        i = i - 1;
    }
    proof {
        s@.index_of_last_ensures('.');
        assert(s@.skip(0) == s@);
    }
    if holds_char(&s, 0, '/') {
        None
    } else {
        Some(filename.to_owned())
    }
}

/// The component of a counted path is the text before its first `/`, whatever
/// follows that slash, repeated slashes included.
pub proof fn lemma_component_is_text_before_first_slash(head: Seq<char>, rest: Seq<char>)
    requires
        !head.contains('/'),
        !starts_with(head + seq!['/'] + rest, legacy_prefix()),
    ensures
        component_of(head + seq!['/'] + rest) == Some(head),
{
    let p = head + seq!['/'] + rest;
    let n = head.len() as int;
    assert(p[n] == '/');
    p.index_of_first_ensures('/');
    let k = p.index_of_first('/')->0;
    assert(k == n) by {
        if k < n {
            assert(head[k] == p[k]);
        } else if k > n {
            assert(p[n] != '/');
        }
    }
    assert(p.take(n) =~= head);
}

/// A path that ends in `.ext`, where `ext` holds no further `.` or `/`, has the
/// language tag `ext`.
pub proof fn lemma_language_is_extension(stem: Seq<char>, ext: Seq<char>)
    requires
        !ext.contains('.'),
        !ext.contains('/'),
    ensures
        language_of(stem + seq!['.'] + ext) == Some(ext),
{
    let p = stem + seq!['.'] + ext;
    let n = stem.len() as int;
    assert(p[n] == '.');
    p.index_of_last_ensures('.');
    let k = p.index_of_last('.')->0;
    assert(k == n) by {
        if k > n {
            assert(ext[k - n - 1] == p[k]);
        } else if k < n {
            assert(p[n] != '.');
        }
    }
    assert(p.skip(n + 1) =~= ext);
}

} // verus!
