//! Search hits as the compactor sees them. Each carries its place in the
//! ranked list, so that what the ranking attached to it can be found again
//! after compaction; the place is not part of its estimated size.

use vstd::prelude::*;

use crate::compactor::{
    byte_len, clamp_usize, lemma_clamp_add, lemma_clamp_add2, opt_bytes, opt_bytes_sum, string_views, strings_bytes,
    CompactItem,
};
use crate::derived::opt_view;

verus! {

fn opt_len(s: &Option<String>) -> (n: usize)
    ensures
        n as nat == opt_bytes(opt_view(*s)),
{
    match s {
        Some(v) => v.as_str().len(),
        None => 0,
    }
}

/// A symbol search hit.
#[derive(Debug, Clone)]
pub struct SymbolHit {
    pub rank: usize,
    pub qualname: String,
    pub kind: String,
    pub file_path: String,
    pub start_line: usize,
    pub end_line: usize,
    pub signature: Option<String>,
    pub summary: String,
    pub why: Vec<String>,
}

impl CompactItem for SymbolHit {
    open spec fn key_view(&self) -> Seq<char> {
        self.qualname@
    }

    open spec fn fixed_chars(&self) -> nat {
        byte_len(self.qualname@) + byte_len(self.file_path@) + opt_bytes(opt_view(self.signature)) + 32
    }

    open spec fn summary_view(&self) -> Option<Seq<char>> {
        Some(self.summary@)
    }

    open spec fn reasons_view(&self) -> Option<Seq<Seq<char>>> {
        Some(string_views(self.why@))
    }

    fn dedupe_key(&self) -> (key: String) {
        self.qualname.clone()
    }

    fn estimated_chars(&self) -> (n: usize) {
        let qn = self.qualname.as_str().len();
        let fp = self.file_path.as_str().len();
        let sig = opt_len(&self.signature);
        let sm = self.summary.as_str().len();
        let why = strings_bytes(&self.why);
        let ghost a = byte_len(self.qualname@);
        let ghost b = byte_len(self.file_path@);
        let ghost c = opt_bytes(opt_view(self.signature));
        let ghost d = byte_len(self.summary@);
        let ghost e = opt_bytes_sum(self.reasons_view());
        assert(qn as nat == a);
        assert(fp as nat == b);
        assert(sm as nat == d);
        let x1 = qn.saturating_add(fp);
        let x2 = x1.saturating_add(sig);
        proof {
            lemma_clamp_add(a + b, c);
        }
        let x3 = x2.saturating_add(sm);
        proof {
            lemma_clamp_add(a + b + c, d);
        }
        let x4 = x3.saturating_add(why);
        proof {
            lemma_clamp_add2(a + b + c + d, e);
        }
        let x5 = x4.saturating_add(32);
        proof {
            lemma_clamp_add(a + b + c + d + e, 32);
        }
        x5
    }

    fn summary_mut(&mut self) -> (r: Option<&mut String>) {
        Some(&mut self.summary)
    }

    fn reasons_mut(&mut self) -> (r: Option<&mut Vec<String>>) {
        Some(&mut self.why)
    }
}

/// A file search hit.
#[derive(Debug, Clone)]
pub struct FileHit {
    pub rank: usize,
    pub path: String,
    pub crate_name: Option<String>,
    pub mod_path: Option<String>,
    pub summary: String,
    pub symbol_count: usize,
    pub why: Vec<String>,
}

impl CompactItem for FileHit {
    open spec fn key_view(&self) -> Seq<char> {
        self.path@
    }

    open spec fn fixed_chars(&self) -> nat {
        byte_len(self.path@) + opt_bytes(opt_view(self.crate_name)) + opt_bytes(opt_view(self.mod_path)) + 24
    }

    open spec fn summary_view(&self) -> Option<Seq<char>> {
        Some(self.summary@)
    }

    open spec fn reasons_view(&self) -> Option<Seq<Seq<char>>> {
        Some(string_views(self.why@))
    }

    fn dedupe_key(&self) -> (key: String) {
        self.path.clone()
    }

    fn estimated_chars(&self) -> (n: usize) {
        let p = self.path.as_str().len();
        let cr = opt_len(&self.crate_name);
        let md = opt_len(&self.mod_path);
        let sm = self.summary.as_str().len();
        let why = strings_bytes(&self.why);
        let ghost a = byte_len(self.path@);
        let ghost b = opt_bytes(opt_view(self.crate_name));
        let ghost c = opt_bytes(opt_view(self.mod_path));
        let ghost d = byte_len(self.summary@);
        let ghost e = opt_bytes_sum(self.reasons_view());
        assert(p as nat == a);
        assert(sm as nat == d);
        let x1 = p.saturating_add(cr);
        let x2 = x1.saturating_add(md);
        proof {
            lemma_clamp_add(a + b, c);
        }
        let x3 = x2.saturating_add(sm);
        proof {
            lemma_clamp_add(a + b + c, d);
        }
        let x4 = x3.saturating_add(why);
        proof {
            lemma_clamp_add2(a + b + c + d, e);
        }
        let x5 = x4.saturating_add(24);
        proof {
            lemma_clamp_add(a + b + c + d + e, 24);
        }
        x5
    }

    fn summary_mut(&mut self) -> (r: Option<&mut String>) {
        Some(&mut self.summary)
    }

    fn reasons_mut(&mut self) -> (r: Option<&mut Vec<String>>) {
        Some(&mut self.why)
    }
}

/// A suggested edit target or test.
#[derive(Debug, Clone)]
pub struct SuggestHit {
    pub rank: usize,
    pub path: String,
    pub qualname: Option<String>,
    pub summary: Option<String>,
    pub why: Vec<String>,
}

impl CompactItem for SuggestHit {
    open spec fn key_view(&self) -> Seq<char> {
        match self.qualname {
            Some(q) => q@,
            None => self.path@,
        }
    }

    open spec fn fixed_chars(&self) -> nat {
        byte_len(self.path@) + opt_bytes(opt_view(self.qualname)) + 24
    }

    open spec fn summary_view(&self) -> Option<Seq<char>> {
        opt_view(self.summary)
    }

    open spec fn reasons_view(&self) -> Option<Seq<Seq<char>>> {
        Some(string_views(self.why@))
    }

    fn dedupe_key(&self) -> (key: String) {
        match &self.qualname {
            Some(q) => q.clone(),
            None => self.path.clone(),
        }
    }

    fn estimated_chars(&self) -> (n: usize) {
        let p = self.path.as_str().len();
        let qn = opt_len(&self.qualname);
        let sm = opt_len(&self.summary);
        let why = strings_bytes(&self.why);
        let ghost a = byte_len(self.path@);
        let ghost b = opt_bytes(opt_view(self.qualname));
        let ghost c = opt_bytes(opt_view(self.summary));
        let ghost e = opt_bytes_sum(self.reasons_view());
        assert(p as nat == a);
        let x1 = p.saturating_add(qn);
        let x2 = x1.saturating_add(sm);
        proof {
            lemma_clamp_add(a + b, c);
        }
        let x3 = x2.saturating_add(why);
        proof {
            lemma_clamp_add2(a + b + c, e);
        }
        let x4 = x3.saturating_add(24);
        proof {
            lemma_clamp_add(a + b + c + e, 24);
        }
        x4
    }

    fn summary_mut(&mut self) -> (r: Option<&mut String>) {
        self.summary.as_mut()
    }

    fn reasons_mut(&mut self) -> (r: Option<&mut Vec<String>>) {
        Some(&mut self.why)
    }
}

} // verus!
