//! Prompt templates kept outside the code, with `{{name}}` placeholders.
//! Reading the template files is left to the caller, who hands their text
//! to the manager.
use vstd::prelude::*;

use crate::error::DirSoulError;
use crate::text::{chars_eq, chars_of, string_of};

verus! {

/// The directory templates are read from unless another is given.
pub const DEFAULT_PROMPTS_DIR: &'static str = "prompts";

/// `s` with every occurrence of `p` replaced by `v`, scanning from the left
/// and not looking into replacements. An empty pattern replaces nothing.
pub open spec fn replace_all(s: Seq<char>, p: Seq<char>, v: Seq<char>) -> Seq<char>
    decreases s.len(),
{
    if p.len() == 0 || s.len() < p.len() {
        s
    } else if s.subrange(0, p.len() as int) == p {
        v + replace_all(s.subrange(p.len() as int, s.len() as int), p, v)
    } else {
        seq![s[0]] + replace_all(s.drop_first(), p, v)
    }
}

/// The placeholder of a variable: its name in double braces.
pub open spec fn placeholder(name: Seq<char>) -> Seq<char> {
    seq!['{', '{'] + name + seq!['}', '}']
}

/// A template with each variable's placeholder replaced, in order.
pub open spec fn rendered(t: Seq<char>, vars: Seq<(String, String)>) -> Seq<char>
    decreases vars.len(),
{
    if vars.len() == 0 {
        t
    } else {
        let last = vars.last();
        replace_all(rendered(t, vars.drop_last()), placeholder(last.0@), last.1@)
    }
}

fn starts_with_at(s: &[char], i: usize, p: &[char]) -> (r: bool)
    requires
        i <= s@.len(),
    ensures
        r == (i + p@.len() <= s@.len() && s@.subrange(i as int, i + p@.len()) == p@),
{
    if p.len() > s.len() - i {
        return false;
    }
    let _sl = s.len();
    let mut k: usize = 0;
    while k < p.len()
        invariant
            _sl == s@.len(),
            i + p@.len() <= s@.len(),
            k <= p@.len(),
            forall|j: int| 0 <= j < k ==> s@[i + j] == p@[j],
        decreases p@.len() - k,
    {
        if s[i + k] != p[k] {
            assert(s@.subrange(i as int, i + p@.len())[k as int] != p@[k as int]);
            return false;
        }
        k += 1;
    }
    assert(s@.subrange(i as int, i + p@.len()) =~= p@);
    true
}

/// Replaces every occurrence of `p` in `s` by `v`.
pub fn replace_chars(s: &[char], p: &[char], v: &[char]) -> (r: Vec<char>)
    ensures
        r@ == replace_all(s@, p@, v@),
{
    let mut out: Vec<char> = Vec::new();
    if p.len() == 0 {
        let mut i: usize = 0;
        while i < s.len()
            invariant
                i <= s@.len(),
                out@ == s@.subrange(0, i as int),
            decreases s@.len() - i,
        {
            out.push(s[i]);
            i += 1;
            assert(out@ =~= s@.subrange(0, i as int));
        }
        assert(out@ =~= s@);
        return out;
    }
    let mut i: usize = 0;
    assert(s@.subrange(0, s@.len() as int) =~= s@);
    while i < s.len()
        invariant
            p@.len() > 0,
            i <= s@.len(),
            out@ + replace_all(s@.subrange(i as int, s@.len() as int), p@, v@) == replace_all(s@, p@, v@),
        decreases s@.len() - i,
    {
        let ghost rest = s@.subrange(i as int, s@.len() as int);
        if starts_with_at(s, i, p) {
            proof {
                assert(rest.subrange(0, p@.len() as int) =~= s@.subrange(i as int, i + p@.len()));
                assert(rest.subrange(p@.len() as int, rest.len() as int) =~= s@.subrange(i + p@.len(), s@.len() as int));
            }
            let mut k: usize = 0;
            let ghost before = out@;
            while k < v.len()
                invariant
                    k <= v@.len(),
                    out@ == before + v@.subrange(0, k as int),
                decreases v@.len() - k,
            {
                out.push(v[k]);
                k += 1;
                assert(out@ =~= before + v@.subrange(0, k as int));
            }
            assert(v@.subrange(0, v@.len() as int) =~= v@);
            assert(out@ + replace_all(s@.subrange(i + p@.len(), s@.len() as int), p@, v@) =~= before + replace_all(rest, p@, v@));
            i = i + p.len();
        } else {
            proof {
                if rest.len() >= p@.len() {
                    assert(rest.subrange(0, p@.len() as int) =~= s@.subrange(i as int, i + p@.len()));
                }
                assert(rest.drop_first() =~= s@.subrange(i + 1, s@.len() as int));
            }
            let ghost before = out@;
            out.push(s[i]);
            assert(out@ + replace_all(s@.subrange(i + 1, s@.len() as int), p@, v@) =~= before + replace_all(rest, p@, v@));
            i += 1;
        }
    }
    assert(out@ + replace_all(s@.subrange(i as int, s@.len() as int), p@, v@) =~= out@);
    out
}

/// The latest of the first `n` templates named `name`.
pub open spec fn latest_template(cache: Seq<(String, String)>, name: Seq<char>, n: int) -> Option<Seq<char>>
    decreases n,
{
    if n <= 0 {
        None
    } else if cache[n - 1].0@ == name {
        Some(cache[n - 1].1@)
    } else {
        latest_template(cache, name, n - 1)
    }
}

proof fn lemma_latest_prefix(c: Seq<(String, String)>, d: Seq<(String, String)>, name: Seq<char>)
    requires
        c.len() == d.len() + 1,
        forall|k: int| 0 <= k < d.len() ==> c[k] == d[k],
        c[d.len() as int].0@ != name,
    ensures
        latest_template(c, name, c.len() as int) == latest_template(d, name, d.len() as int),
{
    lemma_latest_same(c, d, name, d.len() as int);
}

proof fn lemma_latest_same(c: Seq<(String, String)>, d: Seq<(String, String)>, name: Seq<char>, n: int)
    requires
        0 <= n <= d.len(),
        n <= c.len(),
        forall|k: int| 0 <= k < n ==> c[k] == d[k],
    ensures
        latest_template(c, name, n) == latest_template(d, name, n),
    decreases n,
{
    if n > 0 {
        lemma_latest_same(c, d, name, n - 1);
    }
}

/// Loads nothing itself: it keeps the templates it is given and renders them.
pub struct PromptManager {
    prompts_dir: String,
    cache: Vec<(String, String)>,
}

impl PromptManager {
    pub closed spec fn spec_dir(&self) -> Seq<char> {
        self.prompts_dir@
    }

    pub closed spec fn spec_cache(&self) -> Seq<(String, String)> {
        self.cache@
    }

    /// The template stored under `name`, if any: the latest one given.
    pub open spec fn template_of(&self, name: Seq<char>) -> Option<Seq<char>> {
        latest_template(self.spec_cache(), name, self.spec_cache().len() as int)
    }

    /// A manager for the default directory, with no templates yet.
    pub fn new() -> (r: Result<PromptManager, DirSoulError>)
        ensures
            r is Ok,
            r->Ok_0.spec_dir() == DEFAULT_PROMPTS_DIR@,
            r->Ok_0.spec_cache().len() == 0,
    {
        Ok(PromptManager::default())
    }

    /// A manager for the directory `dir`, with no templates yet.
    pub fn with_dir(dir: &str) -> (r: PromptManager)
        ensures
            r.spec_dir() == dir@,
            r.spec_cache().len() == 0,
    {
        PromptManager { prompts_dir: dir.to_string(), cache: Vec::new() }
    }

    /// Where the templates live.
    pub fn prompts_dir(&self) -> (r: &str)
        ensures
            r@ == self.spec_dir(),
    {
        self.prompts_dir.as_str()
    }

    /// Stores the text of template `name`, replacing an earlier one.
    pub fn add_template(&mut self, name: String, content: String)
        ensures
            final(self).template_of(name@) == Some(content@),
            forall|n: Seq<char>| n != name@ ==> final(self).template_of(n) == old(self).template_of(n),
            final(self).spec_dir() == old(self).spec_dir(),
    {
        let ghost before = self.cache@;
        self.cache.push((name, content));
        proof {
            assert forall|n: Seq<char>| n != name@ implies self.template_of(n) == old(self).template_of(n) by {
                assert(self.cache@.len() == before.len() + 1);
                lemma_latest_prefix(self.cache@, before, n);
            }
        }
    }

    /// Whether a template named `name` is held.
    pub fn has_prompt(&self, name: &str) -> (r: bool)
        ensures
            r == self.template_of(name@) is Some,
    {
        self.find(name).is_some()
    }

    fn find(&self, name: &str) -> (r: Option<usize>)
        ensures
            r is Some ==> r->Some_0 < self.spec_cache().len()
                && self.template_of(name@) == Some(self.spec_cache()[r->Some_0 as int].1@),
            r is None ==> self.template_of(name@) is None,
    {
        let n = chars_of(name);
        let mut i: usize = self.cache.len();
        while i > 0
            invariant
                i <= self.cache@.len(),
                n@ == name@,
                latest_template(self.cache@, name@, self.cache@.len() as int) == latest_template(self.cache@, name@, i as int),
            decreases i,
        {
            let key = chars_of(self.cache[i - 1].0.as_str());
            if chars_eq(key.as_slice(), n.as_slice()) {
                return Some(i - 1);
            }
            i -= 1;
        }
        None
    }

    /// Renders template `name` with the variables, each `{{key}}` replaced
    /// by its value, variables taken in order. A missing template is not found.
    pub fn render_prompt_string(&self, name: &str, vars: &Vec<(String, String)>) -> (r: Result<String, DirSoulError>)
        ensures
            r is Err <==> self.template_of(name@) is None,
            r is Err ==> r->Err_0 is NotFound,
            r is Ok ==> r->Ok_0@ == rendered(self.template_of(name@)->Some_0, vars@),
    {
        let i = match self.find(name) {
            Some(i) => i,
            None => {
                return Err(DirSoulError::NotFound("prompt template not found".to_string()));
            },
        };
        let mut text = chars_of(self.cache[i].1.as_str());
        let mut k: usize = 0;
        while k < vars.len()
            invariant
                k <= vars@.len(),
                text@ == rendered(self.cache@[i as int].1@, vars@.subrange(0, k as int)),
            decreases vars@.len() - k,
        {
            let mut ph: Vec<char> = vec!['{', '{'];
            let key = chars_of(vars[k].0.as_str());
            let mut j: usize = 0;
            while j < key.len()
                invariant
                    j <= key@.len(),
                    ph@ == seq!['{', '{'] + key@.subrange(0, j as int),
                decreases key@.len() - j,
            {
                ph.push(key[j]);
                j += 1;
                assert(ph@ =~= seq!['{', '{'] + key@.subrange(0, j as int));
            }
            ph.push('}');
            ph.push('}');
            assert(ph@ =~= placeholder(vars@[k as int].0@));
            let val = chars_of(vars[k].1.as_str());
            text = replace_chars(text.as_slice(), ph.as_slice(), val.as_slice());
            proof {
                assert(vars@.subrange(0, k + 1).drop_last() =~= vars@.subrange(0, k as int));
            }
            k += 1;
        }
        assert(vars@.subrange(0, vars@.len() as int) =~= vars@);
        Ok(string_of(text.as_slice()))
    }

    /// As `render_prompt_string`.
    pub fn render_prompt(&self, name: &str, vars: &Vec<(String, String)>) -> (r: Result<String, DirSoulError>)
        ensures
            r is Err <==> self.template_of(name@) is None,
            r is Ok ==> r->Ok_0@ == rendered(self.template_of(name@)->Some_0, vars@),
    {
        self.render_prompt_string(name, vars)
    }

    /// Forgets every template.
    pub fn clear_cache(&mut self)
        ensures
            final(self).spec_cache().len() == 0,
            final(self).spec_dir() == old(self).spec_dir(),
    {
        self.cache = Vec::new();
    }
}

impl Default for PromptManager {
    fn default() -> (r: PromptManager)
        ensures
            r.spec_dir() == DEFAULT_PROMPTS_DIR@,
            r.spec_cache().len() == 0,
    {
        PromptManager::with_dir(DEFAULT_PROMPTS_DIR)
    }
}

} // verus!
