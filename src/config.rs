//! The opener configuration: file-extension handlers and application directories.
use vstd::prelude::*;

use crate::text::{chars_of, compare_chars};

verus! {

/// Extension handlers and the directories scanned for application descriptors.
pub struct OpenersConfig {
    /// Pairs of a lowercase file extension and a shell command template, whose
    /// `{file}` placeholder stands for the file to open. No extension occurs twice.
    pub openers: Vec<(String, String)>,
    /// Directories that hold application descriptors, in scan order.
    pub app_dirs: Vec<String>,
}

/// The extension and template views of the opener pairs.
pub open spec fn opener_pairs(ops: Seq<(String, String)>) -> Seq<(Seq<char>, Seq<char>)> {
    ops.map_values(|p: (String, String)| (p.0@, p.1@))
}

/// The template of the first pair whose extension is `ext`.
pub open spec fn opener_for(ops: Seq<(Seq<char>, Seq<char>)>, ext: Seq<char>) -> Option<Seq<char>>
    decreases ops.len(),
{
    if ops.len() == 0 {
        None
    } else if ops[0].0 == ext {
        Some(ops[0].1)
    } else {
        opener_for(ops.drop_first(), ext)
    }
}

/// Extensions occur at most once.
pub open spec fn keys_distinct(ops: Seq<(Seq<char>, Seq<char>)>) -> bool {
    forall|i: int, j: int| 0 <= i < j < ops.len() ==> ops[i].0 != ops[j].0
}

impl OpenersConfig {
    /// The configuration is well formed: no extension occurs twice.
    pub open spec fn wf(&self) -> bool {
        keys_distinct(opener_pairs(self.openers@))
    }

    /// The template for `ext`, if any.
    pub open spec fn template_for(&self, ext: Seq<char>) -> Option<Seq<char>> {
        opener_for(opener_pairs(self.openers@), ext)
    }

    /// The empty configuration: no openers, no application directories. This
    /// is also what a missing or malformed configuration file amounts to.
    pub fn new() -> (r: OpenersConfig)
        ensures
            r.wf(),
            r.openers@.len() == 0,
            r.app_dirs@.len() == 0,
            forall|e: Seq<char>| r.template_for(e) is None,
    {
        OpenersConfig { openers: Vec::new(), app_dirs: Vec::new() }
    }

    /// Index of the pair for `ext`, if any.
    pub fn find_opener(&self, ext: &Vec<char>) -> (r: Option<usize>)
        ensures
            match r {
                None => self.template_for(ext@) is None,
                Some(k) => k < self.openers@.len() && self.openers@[k as int].0@ == ext@
                    && self.template_for(ext@) == Some(self.openers@[k as int].1@)
                    && forall|k2: int| 0 <= k2 < k ==> self.openers@[k2].0@ != ext@,
            },
    {
        let ghost ops = opener_pairs(self.openers@);
        let mut i: usize = 0;
        assert(ops.skip(0) =~= ops);
        while i < self.openers.len()
            invariant
                i <= self.openers@.len(),
                ops == opener_pairs(self.openers@),
                opener_for(ops.skip(i as int), ext@) == opener_for(ops, ext@),
                forall|k2: int| 0 <= k2 < i ==> self.openers@[k2].0@ != ext@,
            decreases self.openers@.len() - i,
        {
            let key = chars_of(self.openers[i].0.as_str());
            assert(ops.skip(i as int).drop_first() =~= ops.skip(i + 1));
            if compare_chars(&key, ext) == 0 {
                return Some(i);
            }
            i = i + 1;
        }
        None
    }

    /// Sets the template for `ext`, replacing an earlier one.
    pub fn insert_opener(&mut self, ext: String, template: String)
        requires
            old(self).wf(),
        ensures
            final(self).wf(),
            final(self).app_dirs@ == old(self).app_dirs@,
            final(self).template_for(ext@) == Some(template@),
            forall|e: Seq<char>| e != ext@ ==> final(self).template_for(e) == old(self).template_for(e),
    {
        let ec = chars_of(ext.as_str());
        let ghost old_ops = opener_pairs(self.openers@);
        match self.find_opener(&ec) {
            Some(k) => {
                self.openers.set(k, (ext, template));
                proof {
                    let new_ops = opener_pairs(self.openers@);
                    assert(new_ops =~= old_ops.update(k as int, (ec@, template@)));
                    assert forall|e: Seq<char>| #[trigger] opener_for(new_ops, e) == if e == ec@ {
                        Some(template@)
                    } else {
                        opener_for(old_ops, e)
                    } by {
                        lemma_opener_update(old_ops, k as int, template@, e);
                    }
                }
            },
            None => {
                self.openers.push((ext, template));
                proof {
                    let new_ops = opener_pairs(self.openers@);
                    assert(new_ops =~= old_ops.push((ec@, template@)));
                    assert forall|e: Seq<char>| #[trigger] opener_for(new_ops, e) == if e == ec@ {
                        Some(template@)
                    } else {
                        opener_for(old_ops, e)
                    } by {
                        lemma_opener_push(old_ops, ec@, template@, e);
                    }
                    lemma_opener_absent(old_ops, ec@);
                }
            },
        }
    }
}

/// No pair has an extension whose lookup fails.
proof fn lemma_opener_absent(ops: Seq<(Seq<char>, Seq<char>)>, ext: Seq<char>)
    requires
        opener_for(ops, ext) is None,
    ensures
        forall|i: int| 0 <= i < ops.len() ==> (#[trigger] ops[i]).0 != ext,
    decreases ops.len(),
{
    if ops.len() > 0 {
        lemma_opener_absent(ops.drop_first(), ext);
        assert forall|i: int| 0 <= i < ops.len() implies (#[trigger] ops[i]).0 != ext by {
            if i > 0 {
                assert(ops[i] == ops.drop_first()[i - 1]);
            }
        }
    }
}

proof fn lemma_opener_push(
    ops: Seq<(Seq<char>, Seq<char>)>,
    k: Seq<char>,
    t: Seq<char>,
    e: Seq<char>,
)
    requires
        opener_for(ops, k) is None,
    ensures
        opener_for(ops.push((k, t)), e) == if e == k {
            Some(t)
        } else {
            opener_for(ops, e)
        },
    decreases ops.len(),
{
    if ops.len() > 0 {
        assert(ops.push((k, t)).drop_first() =~= ops.drop_first().push((k, t)));
        lemma_opener_push(ops.drop_first(), k, t, e);
    } else {
        assert(ops.push((k, t)).drop_first() =~= ops);
    }
}

proof fn lemma_opener_update(ops: Seq<(Seq<char>, Seq<char>)>, i: int, t: Seq<char>, e: Seq<char>)
    requires
        0 <= i < ops.len(),
        forall|k2: int| 0 <= k2 < i ==> ops[k2].0 != ops[i].0,
    ensures
        opener_for(ops.update(i, (ops[i].0, t)), e) == if e == ops[i].0 {
            Some(t)
        } else {
            opener_for(ops, e)
        },
    decreases i,
{
    if i > 0 {
        let k = ops[i].0;
        assert(ops.update(i, (k, t)).drop_first() =~= ops.drop_first().update(i - 1, (k, t)));
        assert forall|k2: int| 0 <= k2 < i - 1 implies (#[trigger] ops.drop_first()[k2]).0
            != ops.drop_first()[i - 1].0 by {
            assert(ops[k2 + 1].0 != ops[i].0);
        }
        lemma_opener_update(ops.drop_first(), i - 1, t, e);
        assert(ops.update(i, (k, t))[0] == ops[0]);
        assert(ops[0].0 != k);
    } else {
        assert(ops.update(0, (ops[0].0, t)).drop_first() =~= ops.drop_first());
    }
}

} // verus!
