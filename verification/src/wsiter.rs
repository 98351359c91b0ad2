use crate::symbol::{spec_symbol_of_char, spec_symbols_of, Symbol};
use vstd::prelude::*;
use vstd::string::StrSliceExecFns;

verus! {

/// Walks a source text and yields its meaningful symbols in order, skipping
/// every comment character.
pub struct WsIter<'a> {
    code: &'a str,
    pos: usize,
}

/// Dropping one leading character of a sequence drops its symbol, if it has
/// one, and nothing otherwise.
proof fn lemma_symbols_of_step(s: Seq<char>, i: int)
    requires
        0 <= i < s.len(),
    ensures
        spec_symbols_of(s.skip(i)) == match spec_symbol_of_char(s[i]) {
            Some(y) => seq![y] + spec_symbols_of(s.skip(i + 1)),
            None => spec_symbols_of(s.skip(i + 1)),
        },
{
    assert(s.skip(i).len() > 0);
    assert(s.skip(i)[0] == s[i]);
    assert(s.skip(i).drop_first() =~= s.skip(i + 1));
}

impl<'a> WsIter<'a> {
    /// The cursor never leaves the text.
    pub closed spec fn wf(self) -> bool {
        self.pos <= self.code@.len()
    }

    /// The symbols not yet yielded.
    pub closed spec fn remaining(self) -> Seq<Symbol> {
        spec_symbols_of(self.code@.skip(self.pos as int))
    }

    /// Starts a walk over `code` with every symbol still to come.
    pub fn new(code: &'a str) -> (r: WsIter<'a>)
        ensures
            r.wf(),
            r.remaining() == spec_symbols_of(code@),
    {
        let r = WsIter { code, pos: 0 };
        proof {
            assert(code@.skip(0) =~= code@);
        }
        r
    }

    /// Yields the next symbol of the text, or `None` once only comments are
    /// left.
    pub fn next(&mut self) -> (r: Option<Symbol>)
        requires
            old(self).wf(),
        ensures
            final(self).wf(),
            match r {
                Some(y) => old(self).remaining().len() > 0 && y == old(self).remaining()[0]
                    && final(self).remaining() == old(self).remaining().drop_first(),
                None => old(self).remaining().len() == 0 && final(self).remaining()
                    == old(self).remaining(),
            },
    {
        loop
            invariant
                self.wf(),
                self.code == old(self).code,
                self.remaining() == old(self).remaining(),
            decreases self.code@.len() - self.pos,
        {
            if self.pos >= self.code.unicode_len() {
                proof {
                    assert(self.code@.skip(self.pos as int) =~= Seq::<char>::empty());
                }
                return None;
            }
            let c = self.code.get_char(self.pos);
            proof {
                lemma_symbols_of_step(self.code@, self.pos as int);
            }
            self.pos = self.pos + 1;
            match Symbol::from_char(c) {
                Some(y) => {
                    proof {
                        assert(old(self).remaining().drop_first() =~= self.remaining());
                    }
                    return Some(y);
                },
                None => {},
            }
        }
    }
}

} // verus!
