//! The live log of a job: an append-only text that observers can read while
//! the job runs and that is taken whole when the job ends.
use vstd::prelude::*;

verus! {

/// Every line appended so far, each followed by a newline.
pub struct JobLog {
    text: String,
}

impl View for JobLog {
    type V = Seq<char>;

    closed spec fn view(&self) -> Seq<char> {
        self.text@
    }
}

impl JobLog {
    /// An empty log.
    pub fn new() -> (r: JobLog)
        ensures
            r@ == Seq::<char>::empty(),
    {
        JobLog { text: String::new() }
    }

    /// Appends `msg` as one line.
    pub fn append(&mut self, msg: &str)
        ensures
            final(self)@ == old(self)@ + msg@ + seq!['\n'],
            old(self)@.is_prefix_of(final(self)@),
    {
        proof {
            reveal_strlit("\n");
        }
        self.text.append(msg);
        self.text.append("\n");
        assert(old(self)@ =~= final(self)@.subrange(0, old(self)@.len() as int));
    }

    /// What the log holds now; the log is left as it is.
    pub fn snapshot(&self) -> (r: String)
        ensures
            r@ == self@,
    {
        self.text.clone()
    }

    /// Takes what the log holds, leaving it empty.
    pub fn take(&mut self) -> (r: String)
        ensures
            r@ == old(self)@,
            final(self)@ == Seq::<char>::empty(),
    {
        let r = self.text.clone();
        self.text = String::new();
        r
    }
}

} // verus!
