//! Dialog memory: the (question, answer) pairs of a conversation, and the
//! context built from the most recent ones. Saving and loading are the
//! caller's business.

use vstd::prelude::*;

verus! {

/// At most this many past dialogs go into a context.
pub const CONTEXT_DIALOGS: usize = 4;

/// Dialog memory storing (user, assistant) pairs, oldest first.
pub struct Memory {
    dialogs: Vec<(String, String)>,
}

/// One past dialog as a context line: `Q:<question> A:<answer>`.
pub open spec fn dialog_line(q: Seq<char>, a: Seq<char>) -> Seq<char> {
    "Q:"@ + q + " A:"@ + a
}

/// The lines joined by newlines.
pub open spec fn lines_joined(ls: Seq<Seq<char>>) -> Seq<char>
    decreases ls.len(),
{
    if ls.len() == 0 {
        Seq::empty()
    } else if ls.len() == 1 {
        ls[0]
    } else {
        lines_joined(ls.drop_last()) + seq!['\n'] + ls.last()
    }
}

/// The context lines for `input`: the last `CONTEXT_DIALOGS` dialogs (fewer
/// if there are fewer), most recent first, then `Q:<input>`.
pub open spec fn context_lines(d: Seq<(Seq<char>, Seq<char>)>, input: Seq<char>) -> Seq<Seq<char>> {
    let k = if d.len() < CONTEXT_DIALOGS {
        d.len()
    } else {
        CONTEXT_DIALOGS as nat
    };
    Seq::new(k, |j: int| dialog_line(d[d.len() - 1 - j].0, d[d.len() - 1 - j].1)).push(
        "Q:"@ + input,
    )
}

impl Memory {
    /// The dialogs, oldest first.
    pub closed spec fn spec_dialogs(&self) -> Seq<(Seq<char>, Seq<char>)> {
        self.dialogs@.map_values(|p: (String, String)| (p.0@, p.1@))
    }

    /// An empty memory.
    pub fn new() -> (r: Self)
        ensures
            r.spec_dialogs() == Seq::<(Seq<char>, Seq<char>)>::empty(),
    {
        let r = Memory { dialogs: Vec::new() };
        assert(r.spec_dialogs() =~= Seq::<(Seq<char>, Seq<char>)>::empty());
        r
    }

    /// A memory holding `dialogs`, oldest first.
    pub fn from_dialogs(dialogs: Vec<(String, String)>) -> (r: Self)
        ensures
            r.spec_dialogs() == dialogs@.map_values(|p: (String, String)| (p.0@, p.1@)),
    {
        Memory { dialogs }
    }

    /// The dialogs, oldest first.
    pub fn dialogs(&self) -> (r: &Vec<(String, String)>)
        ensures
            r@.map_values(|p: (String, String)| (p.0@, p.1@)) == self.spec_dialogs(),
    {
        &self.dialogs
    }

    /// A naive context: the most recent dialogs, newest first, then the new
    /// input, one per line.
    pub fn build_context(&self, input: &str) -> (r: String)
        ensures
            r@ == lines_joined(context_lines(self.spec_dialogs(), input@)),
    {
        let ghost d = self.spec_dialogs();
        let n = self.dialogs.len();
        let k = if n < CONTEXT_DIALOGS {
            n
        } else {
            CONTEXT_DIALOGS
        };
        let ghost ls = context_lines(d, input@);
        proof {
            reveal_strlit("Q:");
            reveal_strlit(" A:");
            reveal_strlit("\n");
        }
        let mut out = String::new();
        let mut j: usize = 0;
        while j < k
            invariant
                j <= k,
                k <= n,
                n == self.dialogs.len(),
                d == self.spec_dialogs(),
                ls == context_lines(d, input@),
                k == (if n < CONTEXT_DIALOGS {
                    n
                } else {
                    CONTEXT_DIALOGS
                }),
                out@ == lines_joined(ls.subrange(0, j as int)),
            decreases k - j,
        {
            assert(ls.subrange(0, j + 1 as int).drop_last() =~= ls.subrange(0, j as int));
            proof {
                reveal_strlit("\n");
            }
            let ghost before = out@;
            if j > 0 {
                out.append("\n");
            }
            let pair = &self.dialogs[n - 1 - j];
            let ghost prev = out@;
            assert(j > 0 ==> prev == before + seq!['\n']);
            assert(j == 0 ==> prev == before);
            assert(d[n - 1 - j] == (pair.0@, pair.1@));
            assert(ls[j as int] == dialog_line(pair.0@, pair.1@));
            out.append("Q:");
            out.append(pair.0.as_str());
            out.append(" A:");
            out.append(pair.1.as_str());
            assert(out@ =~= prev + dialog_line(pair.0@, pair.1@));
            let ghost sub = ls.subrange(0, j + 1 as int);
            assert(sub.last() == ls[j as int]);
            if j == 0 {
                assert(lines_joined(sub) == sub[0]);
            } else {
                assert(lines_joined(sub) == lines_joined(sub.drop_last()) + seq!['\n'] + sub.last());
            }
            j = j + 1;
            assert(out@ =~= lines_joined(ls.subrange(0, j as int)));
        }
        assert(ls.subrange(0, k + 1 as int).drop_last() =~= ls.subrange(0, k as int));
        if k > 0 {
            out.append("\n");
        }
        out.append("Q:");
        out.append(input);
        assert(ls.subrange(0, k + 1 as int) =~= ls);
        assert(out@ =~= lines_joined(ls));
        out
    }

    /// Appends a dialog pair.
    pub fn save_dialog(&mut self, input: &str, response: &str)
        ensures
            final(self).spec_dialogs() == old(self).spec_dialogs().push((input@, response@)),
    {
        self.dialogs.push((input.to_owned(), response.to_owned()));
        assert(self.spec_dialogs() =~= old(self).spec_dialogs().push((input@, response@)));
    }
}

} // verus!
