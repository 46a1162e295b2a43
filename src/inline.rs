//! The inline run: finished inline nodes, the pending text that the next text
//! node is built from, and the format spans open over that text.
use vstd::prelude::*;
use crate::model::{FormatRange, Inline, inline_wf, inlines_wf, range_fits, ranges_fit};

verus! {

/// A style span that has been opened at character `start` of the pending text.
#[derive(Clone, Copy, Debug, PartialEq, Eq, Structural)]
pub struct OpenSpan {
    pub style: u8,
    pub start: usize,
}

pub struct InlineRun {
    pub nodes: Vec<Inline>,
    pub pending: Vec<char>,
    pub open: Vec<OpenSpan>,
    pub ranges: Vec<FormatRange>,
}

/// The range that an open span covers when the pending text is `len` long,
/// if it covers anything.
pub open spec fn span_range(sp: OpenSpan, len: int) -> Seq<FormatRange> {
    if len - sp.start > 0 {
        seq![FormatRange { style: sp.style, start: sp.start, length: (len - sp.start) as usize }]
    } else {
        seq![]
    }
}

/// The ranges that the open spans record when the pending text is flushed,
/// from the outermost span to the innermost.
pub open spec fn spans_ranges(open: Seq<OpenSpan>, len: int) -> Seq<FormatRange>
    decreases open.len(),
{
    if open.len() == 0 {
        seq![]
    } else {
        spans_ranges(open.drop_last(), len) + span_range(open.last(), len)
    }
}

/// The open spans of a fresh pending text: the same styles, all from 0.
pub open spec fn spans_restarted(open: Seq<OpenSpan>) -> Seq<OpenSpan> {
    open.map_values(|sp: OpenSpan| OpenSpan { style: sp.style, start: 0 })
}

/// A recorded range after the text it lies on is cut to `n` characters:
/// dropped when it starts at or past the cut, shortened when it crosses it.
pub open spec fn range_cut(r: FormatRange, n: int) -> Seq<FormatRange> {
    if r.start >= n {
        seq![]
    } else if r.start + r.length > n {
        seq![FormatRange { style: r.style, start: r.start, length: (n - r.start) as usize }]
    } else {
        seq![r]
    }
}

pub open spec fn ranges_cut(rs: Seq<FormatRange>, n: int) -> Seq<FormatRange>
    decreases rs.len(),
{
    if rs.len() == 0 {
        seq![]
    } else {
        ranges_cut(rs.drop_last(), n) + range_cut(rs.last(), n)
    }
}

pub open spec fn span_cut(sp: OpenSpan, n: int) -> OpenSpan {
    if sp.start > n {
        OpenSpan { style: sp.style, start: n as usize }
    } else {
        sp
    }
}

/// Open spans after the text is cut to `n` characters: none starts past it.
pub open spec fn spans_cut(open: Seq<OpenSpan>, n: int) -> Seq<OpenSpan> {
    open.map_values(|sp: OpenSpan| span_cut(sp, n))
}

proof fn lemma_spans_ranges_fit(open: Seq<OpenSpan>, len: int)
    requires
        len <= usize::MAX,
        forall|i: int| 0 <= i < open.len() ==> (#[trigger] open[i]).start <= len,
    ensures
        ranges_fit(spans_ranges(open, len), len),
    decreases open.len(),
{
    if open.len() > 0 {
        let init = open.drop_last();
        assert forall|i: int| 0 <= i < init.len() implies (#[trigger] init[i]).start <= len by {
            assert(init[i] == open[i]);
        }
        lemma_spans_ranges_fit(init, len);
        let a = spans_ranges(init, len);
        let b = span_range(open.last(), len);
        assert(open.last() == open[open.len() - 1]);
        assert forall|i: int| 0 <= i < (a + b).len() implies range_fits(#[trigger] (a + b)[i], len) by {
            if i < a.len() {
                assert((a + b)[i] == a[i]);
            } else {
                assert((a + b)[i] == b[i - a.len()]);
            }
        }
    }
}

proof fn lemma_ranges_cut_fit(rs: Seq<FormatRange>, n: int)
    requires
        n >= 0,
        forall|i: int| 0 <= i < rs.len() ==> (#[trigger] rs[i]).length >= 1,
    ensures
        ranges_fit(ranges_cut(rs, n), n),
    decreases rs.len(),
{
    if rs.len() > 0 {
        lemma_ranges_cut_fit(rs.drop_last(), n);
    }
}

/// `n` is a text node holding `text` with the format ranges `ranges`.
pub open spec fn is_text_node(n: Inline, text: Seq<char>, ranges: Seq<FormatRange>) -> bool {
    match n {
        Inline::Text { text: t, ranges: r } => t@ == text && r@ == ranges,
        _ => false,
    }
}

/// `content` is what a run with these parts holds once its pending text is
/// flushed: the finished nodes, then the pending text as a text node if there
/// is any, carrying its recorded ranges and those of the spans still open.
pub open spec fn flushed_parts(
    content: Seq<Inline>,
    nodes: Seq<Inline>,
    pending: Seq<char>,
    ranges: Seq<FormatRange>,
    open: Seq<OpenSpan>,
) -> bool {
    if pending.len() == 0 {
        content == nodes
    } else {
        &&& content.len() == nodes.len() + 1
        &&& content.drop_last() == nodes
        &&& is_text_node(content.last(), pending, ranges + spans_ranges(open, pending.len() as int))
    }
}

pub open spec fn flushed_content(content: Seq<Inline>, run: InlineRun) -> bool {
    flushed_parts(content, run.nodes@, run.pending@, run.ranges@, run.open@)
}

/// `b` is a run with these parts after its pending text was flushed and one
/// node appended: that node is the last, the pending text is empty and the
/// open spans start again at 0.
pub open spec fn emitted_parts(
    b: InlineRun,
    nodes: Seq<Inline>,
    pending: Seq<char>,
    ranges: Seq<FormatRange>,
    open: Seq<OpenSpan>,
) -> bool {
    &&& b.nodes@.len() > 0
    &&& flushed_parts(b.nodes@.drop_last(), nodes, pending, ranges, open)
    &&& b.pending@.len() == 0
    &&& b.ranges@.len() == 0
    &&& b.open@ == spans_restarted(open)
}

pub open spec fn emitted(b: InlineRun, a: InlineRun) -> bool {
    emitted_parts(b, a.nodes@, a.pending@, a.ranges@, a.open@)
}

impl InlineRun {
    /// Offsets of recorded ranges and open spans lie within the pending text,
    /// and every finished text node carries ranges that fit it.
    pub open spec fn wf(&self) -> bool {
        &&& inlines_wf(self.nodes@)
        &&& ranges_fit(self.ranges@, self.pending@.len() as int)
        &&& forall|i: int| 0 <= i < self.open@.len() ==> (#[trigger] self.open@[i]).start <= self.pending@.len()
    }

    pub fn new() -> (r: InlineRun)
        ensures
            r.wf(),
            r.nodes@.len() == 0,
            r.pending@.len() == 0,
            r.open@.len() == 0,
            r.ranges@.len() == 0,
    {
        InlineRun { nodes: Vec::new(), pending: Vec::new(), open: Vec::new(), ranges: Vec::new() }
    }


    /// Appends characters to the pending text.
    pub fn push_text(&mut self, s: &Vec<char>)
        requires
            old(self).wf(),
        ensures
            final(self).wf(),
            final(self).pending@ == old(self).pending@ + s@,
            final(self).nodes@ == old(self).nodes@,
            final(self).open@ == old(self).open@,
            final(self).ranges@ == old(self).ranges@,
    {
        let mut i: usize = 0;
        while i < s.len()
            invariant
                0 <= i <= s@.len(),
                self.pending@ == old(self).pending@ + s@.subrange(0, i as int),
                self.nodes@ == old(self).nodes@,
                self.open@ == old(self).open@,
                self.ranges@ == old(self).ranges@,
                self.wf(),
            decreases s@.len() - i,
        {
            self.pending.push(s[i]);
            i = i + 1;
            assert(self.pending@ =~= old(self).pending@ + s@.subrange(0, i as int));
        }
        assert(s@.subrange(0, s@.len() as int) =~= s@);
    }

    /// Appends one character to the pending text.
    pub fn push_char(&mut self, c: char)
        requires
            old(self).wf(),
        ensures
            final(self).wf(),
            final(self).pending@ == old(self).pending@.push(c),
            final(self).nodes@ == old(self).nodes@,
            final(self).open@ == old(self).open@,
            final(self).ranges@ == old(self).ranges@,
    {
        self.pending.push(c);
    }

    /// Opens a style span at the current end of the pending text.
    pub fn open_style(&mut self, style: u8)
        requires
            old(self).wf(),
        ensures
            final(self).wf(),
            final(self).open@ == old(self).open@.push(
                OpenSpan { style, start: old(self).pending@.len() as usize },
            ),
            final(self).pending@ == old(self).pending@,
            final(self).nodes@ == old(self).nodes@,
            final(self).ranges@ == old(self).ranges@,
    {
        let start = self.pending.len();
        self.open.push(OpenSpan { style, start });
    }

    /// Closes the innermost open span, recording the range it covered if that
    /// is not empty.
    pub fn close_style(&mut self)
        requires
            old(self).wf(),
        ensures
            final(self).wf(),
            old(self).open@.len() == 0 ==> final(self).open@ == old(self).open@
                && final(self).ranges@ == old(self).ranges@,
            old(self).open@.len() > 0 ==> final(self).open@ == old(self).open@.drop_last()
                && final(self).ranges@ == old(self).ranges@ + span_range(
                old(self).open@.last(),
                old(self).pending@.len() as int,
            ),
            final(self).pending@ == old(self).pending@,
            final(self).nodes@ == old(self).nodes@,
    {
        match self.open.pop() {
            None => {},
            Some(sp) => {
                let len = self.pending.len();
                if len - sp.start > 0 {
                    self.ranges.push(FormatRange { style: sp.style, start: sp.start, length: len - sp.start });
                }
                proof {
                    assert(old(self).open@.last() == sp);
                    assert(self.ranges@ =~= old(self).ranges@ + span_range(sp, len as int));
                }
            },
        }
    }

    /// Turns the pending text, if there is any, into a finished text node.
    /// The spans still open record the part they cover and go on over the
    /// next pending text from its start.
    pub fn flush(&mut self)
        requires
            old(self).wf(),
        ensures
            final(self).wf(),
            final(self).open@.len() == old(self).open@.len(),
            final(self).open@ == spans_restarted(old(self).open@),
            final(self).ranges@.len() == 0,
            flushed_content(final(self).nodes@, *old(self)),
            old(self).pending@.len() == 0 ==> final(self).nodes@ == old(self).nodes@
                && final(self).open@ == old(self).open@
                && final(self).ranges@ == old(self).ranges@,
            old(self).pending@.len() > 0 ==> {
                &&& final(self).nodes@.len() == old(self).nodes@.len() + 1
                &&& final(self).nodes@.drop_last() == old(self).nodes@
                &&& is_text_node(
                    final(self).nodes@.last(),
                    old(self).pending@,
                    old(self).ranges@ + spans_ranges(old(self).open@, old(self).pending@.len() as int),
                )
                &&& final(self).open@ == spans_restarted(old(self).open@)
                &&& final(self).ranges@.len() == 0
            },
            final(self).pending@.len() == 0,
    {
        if self.pending.len() == 0 {
            proof {
                if self.ranges@.len() > 0 {
                    assert(range_fits(self.ranges@[0], 0));
                }
                assert(spans_restarted(self.open@) =~= self.open@) by {
                    assert forall|j: int| 0 <= j < self.open@.len() implies spans_restarted(self.open@)[j]
                        == self.open@[j] by {
                        assert(self.open@[j].start <= 0);
                    }
                }
            }
            return;
        }
        let len = self.pending.len();
        let mut text: Vec<char> = Vec::new();
        let mut ranges: Vec<FormatRange> = Vec::new();
        std::mem::swap(&mut text, &mut self.pending);
        std::mem::swap(&mut ranges, &mut self.ranges);
        let mut restarted: Vec<OpenSpan> = Vec::new();
        let mut i: usize = 0;
        while i < self.open.len()
            invariant
                0 <= i <= self.open@.len(),
                self.open@ == old(self).open@,
                len == old(self).pending@.len(),
                ranges@ == old(self).ranges@ + spans_ranges(self.open@.subrange(0, i as int), len as int),
                restarted@ == spans_restarted(self.open@.subrange(0, i as int)),
                forall|j: int| 0 <= j < self.open@.len() ==> (#[trigger] self.open@[j]).start <= len,
            decreases self.open@.len() - i,
        {
            let sp = self.open[i];
            if len - sp.start > 0 {
                ranges.push(FormatRange { style: sp.style, start: sp.start, length: len - sp.start });
            }
            restarted.push(OpenSpan { style: sp.style, start: 0 });
            proof {
                let pre = self.open@.subrange(0, i as int);
                let post = self.open@.subrange(0, i + 1);
                assert(post.drop_last() =~= pre);
                assert(post.last() == sp);
                assert(ranges@ =~= old(self).ranges@ + spans_ranges(post, len as int));
                assert(restarted@ =~= spans_restarted(post));
            }
            i = i + 1;
        }
        proof {
            assert(self.open@.subrange(0, self.open@.len() as int) =~= self.open@);
            lemma_spans_ranges_fit(old(self).open@, len as int);
        }
        self.open = restarted;
        self.nodes.push(Inline::Text { text, ranges });
        proof {
            assert(self.nodes@.drop_last() =~= old(self).nodes@);
            assert forall|j: int| 0 <= j < self.nodes@.len() implies inline_wf(#[trigger] self.nodes@[j]) by {
                if j < old(self).nodes@.len() {
                    assert(self.nodes@[j] == old(self).nodes@[j]);
                }
            }
        }
    }

    /// Flushes the pending text, then appends a finished node.
    pub fn emit(&mut self, n: Inline)
        requires
            old(self).wf(),
            inline_wf(n),
        ensures
            final(self).wf(),
            final(self).pending@.len() == 0,
            final(self).nodes@.len() >= 1,
            final(self).nodes@.last() == n,
            emitted(*final(self), *old(self)),
            final(self).open@.len() == old(self).open@.len(),
    {
        self.flush();
        let ghost mid = self.nodes@;
        self.nodes.push(n);
        proof {
            assert(self.nodes@.drop_last() =~= mid);
            assert forall|j: int| 0 <= j < self.nodes@.len() implies inline_wf(#[trigger] self.nodes@[j]) by {
                if j < mid.len() {
                    assert(self.nodes@[j] == mid[j]);
                }
            }
        }
    }

    /// Cuts the last `trim` characters off the pending text, dropping or
    /// shortening the ranges and spans that reached into them. Returns false,
    /// changing nothing, when the pending text is shorter than `trim`.
    pub fn splice(&mut self, trim: usize) -> (ok: bool)
        requires
            old(self).wf(),
        ensures
            final(self).wf(),
            ok == (trim <= old(self).pending@.len()),
            !ok ==> *final(self) == *old(self),
            ok ==> {
                let n = old(self).pending@.len() - trim;
                &&& final(self).pending@ == old(self).pending@.subrange(0, n)
                &&& final(self).ranges@ == ranges_cut(old(self).ranges@, n)
                &&& final(self).open@ == spans_cut(old(self).open@, n)
                &&& final(self).nodes@ == old(self).nodes@
            },
    {
        if trim > self.pending.len() {
            return false;
        }
        let n = self.pending.len() - trim;
        self.pending.truncate(n);
        let mut kept: Vec<FormatRange> = Vec::new();
        let mut i: usize = 0;
        while i < self.ranges.len()
            invariant
                0 <= i <= self.ranges@.len(),
                self.ranges@ == old(self).ranges@,
                kept@ == ranges_cut(self.ranges@.subrange(0, i as int), n as int),
            decreases self.ranges@.len() - i,
        {
            let r = self.ranges[i];
            if r.start >= n {
            } else if r.length > n - r.start {
                kept.push(FormatRange { style: r.style, start: r.start, length: n - r.start });
            } else {
                kept.push(r);
            }
            proof {
                let post = self.ranges@.subrange(0, i + 1);
                assert(post.drop_last() =~= self.ranges@.subrange(0, i as int));
                assert(post.last() == r);
                assert(kept@ =~= ranges_cut(post, n as int));
            }
            i = i + 1;
        }
        let mut spans: Vec<OpenSpan> = Vec::new();
        let mut k: usize = 0;
        while k < self.open.len()
            invariant
                0 <= k <= self.open@.len(),
                self.open@ == old(self).open@,
                spans@ == spans_cut(self.open@.subrange(0, k as int), n as int),
            decreases self.open@.len() - k,
        {
            let sp = self.open[k];
            if sp.start > n {
                spans.push(OpenSpan { style: sp.style, start: n });
            } else {
                spans.push(sp);
            }
            proof {
                assert(spans@ =~= spans_cut(self.open@.subrange(0, k + 1), n as int));
            }
            k = k + 1;
        }
        proof {
            assert(self.ranges@.subrange(0, self.ranges@.len() as int) =~= self.ranges@);
            assert(self.open@.subrange(0, self.open@.len() as int) =~= self.open@);
            lemma_ranges_cut_fit(old(self).ranges@, n as int);
        }
        self.ranges = kept;
        self.open = spans;
        proof {
            assert(self.pending@ =~= old(self).pending@.subrange(0, n as int));
        }
        true
    }

    /// Flushes the pending text and hands out the finished nodes, leaving the
    /// run empty but for the spans still open.
    pub fn take_nodes(&mut self) -> (r: Vec<Inline>)
        requires
            old(self).wf(),
        ensures
            final(self).wf(),
            inlines_wf(r@),
            final(self).nodes@.len() == 0,
            final(self).pending@.len() == 0,
            final(self).open@.len() == old(self).open@.len(),
            flushed_content(r@, *old(self)),
            final(self).ranges@.len() == 0,
            final(self).open@ == spans_restarted(old(self).open@),
    {
        self.flush();
        let mut r: Vec<Inline> = Vec::new();
        std::mem::swap(&mut r, &mut self.nodes);
        r
    }

    /// Puts `nodes` in place of the finished nodes and hands out those.
    pub fn replace_nodes(&mut self, nodes: Vec<Inline>) -> (prev: Vec<Inline>)
        requires
            old(self).wf(),
            inlines_wf(nodes@),
        ensures
            final(self).wf(),
            inlines_wf(prev@),
            prev@ == old(self).nodes@,
            final(self).nodes@ == nodes@,
            final(self).pending@ == old(self).pending@,
            final(self).open@ == old(self).open@,
            final(self).ranges@ == old(self).ranges@,
    {
        let mut prev = nodes;
        std::mem::swap(&mut prev, &mut self.nodes);
        prev
    }
}

} // verus!
