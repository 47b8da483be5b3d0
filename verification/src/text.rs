//! Measured text: grapheme clusters with their terminal widths.
//!
//! Segmentation and cell widths come from the host; the library lays out and
//! draws what it is given.

use vstd::prelude::*;

use crate::strings::{chars_of, same_text};

verus! {

/// One grapheme cluster and the cells it takes.
pub struct Cluster {
    /// The cluster's characters.
    pub text: String,
    /// The cells it takes; zero for marks and controls.
    pub width: u16,
}

/// The characters and width of a cluster.
pub struct ClusterView {
    /// The cluster's characters.
    pub text: Seq<char>,
    /// The cells it takes.
    pub width: u16,
}

impl View for Cluster {
    type V = ClusterView;

    open spec fn view(&self) -> ClusterView {
        ClusterView { text: self.text@, width: self.width }
    }
}

impl Cluster {
    /// Creates a cluster of the given width.
    pub fn new(text: &str, width: u16) -> (cluster: Self)
        ensures
            cluster@ == (ClusterView { text: text@, width }),
    {
        Cluster { text: text.to_owned(), width }
    }

    /// A cluster with the same characters and width.
    pub fn copy(&self) -> (cluster: Self)
        ensures
            cluster@ == self@,
    {
        Cluster { text: self.text.clone(), width: self.width }
    }
}

/// A text split into clusters.
pub struct Text {
    /// The clusters in reading order.
    pub clusters: Vec<Cluster>,
}

/// The views of the clusters.
pub open spec fn cluster_views(clusters: Seq<Cluster>) -> Seq<ClusterView> {
    clusters.map_values(|cluster: Cluster| cluster@)
}

impl View for Text {
    type V = Seq<ClusterView>;

    open spec fn view(&self) -> Seq<ClusterView> {
        cluster_views(self.clusters@)
    }
}

/// The characters of a run of clusters.
pub open spec fn content(clusters: Seq<ClusterView>) -> Seq<char>
    decreases clusters.len(),
{
    if clusters.len() == 0 {
        Seq::empty()
    } else {
        content(clusters.drop_last()) + clusters.last().text
    }
}

/// The cells of a run of clusters.
pub open spec fn cells(clusters: Seq<ClusterView>) -> nat
    decreases clusters.len(),
{
    if clusters.len() == 0 {
        0
    } else {
        cells(clusters.drop_last()) + clusters.last().width as nat
    }
}

/// The width of a text in cells, held at the largest coordinate.
pub open spec fn text_width(clusters: Seq<ClusterView>) -> u16 {
    if cells(clusters) <= 65535 {
        cells(clusters) as u16
    } else {
        65535
    }
}

/// The C0 and C1 controls and DEL.
pub open spec fn control(c: char) -> bool {
    c < '\u{20}' || ('\u{7f}' <= c && c < '\u{a0}')
}

/// Whether any of `text` is a control.
pub open spec fn has_control(text: Seq<char>) -> bool {
    exists|i: int| 0 <= i < text.len() && #[trigger] control(text[i])
}

/// Whether `text` is the empty text.
pub open spec fn is_blank_text(clusters: Seq<ClusterView>) -> bool {
    content(clusters).len() == 0
}

/// Whether all of `text` is ASCII.
pub open spec fn ascii(text: Seq<char>) -> bool {
    forall|i: int| 0 <= i < text.len() ==> #[trigger] text[i] <= '\u{7f}'
}

/// Whether every cluster is ASCII.
pub open spec fn all_ascii(clusters: Seq<ClusterView>) -> bool {
    forall|i: int| 0 <= i < clusters.len() ==> ascii(#[trigger] clusters[i].text)
}

/// Whether drawing stops at this cluster: a line feed or a carriage return.
/// In pure ASCII a carriage return stops the line even when a line feed
/// follows in the same cluster.
pub open spec fn stops_line(cluster: Seq<char>, pure_ascii: bool) -> bool {
    ||| cluster == seq!['\n']
    ||| cluster == seq!['\r']
    ||| pure_ascii && cluster == seq!['\r', '\n']
}

/// The clusters that drawing into `room` cells shows: up to the first line
/// break or the first cluster that does not fit, without those that take no
/// cell or hold a control.
pub open spec fn drawn(clusters: Seq<ClusterView>, room: int, pure_ascii: bool) -> Seq<ClusterView>
    decreases clusters.len(),
{
    if clusters.len() == 0 || stops_line(clusters[0].text, pure_ascii) {
        Seq::empty()
    } else if has_control(clusters[0].text) || clusters[0].width == 0 {
        drawn(clusters.drop_first(), room, pure_ascii)
    } else if clusters[0].width > room {
        Seq::empty()
    } else {
        seq![clusters[0]] + drawn(clusters.drop_first(), room - clusters[0].width, pure_ascii)
    }
}

/// The cells that drawing `clusters` into `room` cells fills.
pub open spec fn drawn_cells(clusters: Seq<ClusterView>, room: int) -> nat {
    cells(drawn(clusters, room, all_ascii(clusters)))
}

/// Cells add up over a concatenation.
pub proof fn cells_of_concat(a: Seq<ClusterView>, b: Seq<ClusterView>)
    ensures
        cells(a + b) == cells(a) + cells(b),
    decreases b.len(),
{
    if b.len() == 0 {
        assert(a + b =~= a);
    } else {
        assert((a + b).drop_last() =~= a + b.drop_last());
        cells_of_concat(a, b.drop_last());
    }
}

/// The first cluster contributes its width.
pub proof fn cells_from_the_front(clusters: Seq<ClusterView>)
    requires
        clusters.len() > 0,
    ensures
        cells(clusters) == clusters[0].width + cells(clusters.drop_first()),
{
    let first = seq![clusters[0]];
    assert(clusters =~= first + clusters.drop_first());
    cells_of_concat(first, clusters.drop_first());
    assert(first.drop_last() =~= Seq::<ClusterView>::empty());
    assert(cells(first.drop_last()) == 0);
    assert(cells(first) == first.last().width);
}

/// Drawing never fills more than the room it is given.
pub proof fn drawing_fits(clusters: Seq<ClusterView>, room: int, pure_ascii: bool)
    requires
        0 <= room,
    ensures
        cells(drawn(clusters, room, pure_ascii)) <= room,
        forall|i: int|
            0 <= i < drawn(clusters, room, pure_ascii).len() ==> (#[trigger] drawn(
                clusters,
                room,
                pure_ascii,
            )[i]).width >= 1,
    decreases clusters.len(),
{
    if clusters.len() == 0 || stops_line(clusters[0].text, pure_ascii) {
        assert(cells(Seq::<ClusterView>::empty()) == 0);
    } else if has_control(clusters[0].text) || clusters[0].width == 0 {
        drawing_fits(clusters.drop_first(), room, pure_ascii);
    } else if clusters[0].width > room {
        assert(cells(Seq::<ClusterView>::empty()) == 0);
    } else {
        let rest = drawn(clusters.drop_first(), room - clusters[0].width, pure_ascii);
        drawing_fits(clusters.drop_first(), room - clusters[0].width, pure_ascii);
        let all = seq![clusters[0]] + rest;
        cells_from_the_front(all);
        assert(all.drop_first() =~= rest);
    }
}

/// Whether any character of `text` is a control.
pub fn contains_control(text: &str) -> (found: bool)
    ensures
        found == has_control(text@),
{
    for c in iter: text.chars()
        invariant
            iter.seq() == text@,
            forall|i: int| 0 <= i < iter.index() ==> !#[trigger] control(text@[i]),
    {
        if is_control(c) {
            assert(control(text@[iter.index() as int]));
            return true;
        }
    }
    false
}

/// Whether `c` is a control.
pub fn is_control(c: char) -> (yes: bool)
    ensures
        yes == control(c),
{
    c < '\u{20}' || ('\u{7f}' <= c && c < '\u{a0}')
}

/// Whether every character of `text` is ASCII.
pub fn is_ascii_text(text: &str) -> (yes: bool)
    ensures
        yes == ascii(text@),
{
    for c in iter: text.chars()
        invariant
            iter.seq() == text@,
            forall|i: int| 0 <= i < iter.index() ==> #[trigger] text@[i] <= '\u{7f}',
    {
        if c > '\u{7f}' {
            assert(text@[iter.index() as int] > '\u{7f}');
            return false;
        }
    }
    true
}

/// Whether drawing stops at a cluster.
pub fn is_line_stop(cluster: &str, pure_ascii: bool) -> (stops: bool)
    ensures
        stops == stops_line(cluster@, pure_ascii),
{
    proof {
        reveal_strlit("\n");
        reveal_strlit("\r");
        reveal_strlit("\r\n");
        assert("\n"@ =~= seq!['\n']);
        assert("\r"@ =~= seq!['\r']);
        assert("\r\n"@ =~= seq!['\r', '\n']);
    }
    same_text(cluster, "\n") || same_text(cluster, "\r") || (pure_ascii && same_text(
        cluster,
        "\r\n",
    ))
}

impl Text {
    /// A text without clusters.
    pub fn empty() -> (text: Self)
        ensures
            text@ == Seq::<ClusterView>::empty(),
    {
        let text = Text { clusters: Vec::new() };
        assert(text@ =~= Seq::<ClusterView>::empty());
        text
    }

    /// A text with the same clusters.
    pub fn copy(&self) -> (text: Self)
        ensures
            text@ == self@,
    {
        let mut clusters: Vec<Cluster> = Vec::new();
        let mut at: usize = 0;
        while at < self.clusters.len()
            invariant
                at <= self.clusters.len(),
                clusters.len() == at,
                forall|i: int| 0 <= i < at ==> (#[trigger] clusters@[i])@ == self@[i],
            decreases self.clusters.len() - at,
        {
            clusters.push(self.clusters[at].copy());
            at += 1;
        }
        let text = Text { clusters };
        assert(text@ =~= self@);
        text
    }

    /// Whether the text has no characters.
    pub fn is_empty(&self) -> (empty: bool)
        ensures
            empty == is_blank_text(self@),
    {
        let mut at: usize = 0;
        while at < self.clusters.len()
            invariant
                at <= self.clusters.len(),
                content(self@.take(at as int)).len() == 0,
            decreases self.clusters.len() - at,
        {
            proof {
                assert(self@.take(at + 1).drop_last() =~= self@.take(at as int));
            }
            if !self.clusters[at].text.as_str().is_empty() {
                proof {
                    content_grows(self@, at as int + 1);
                }
                return false;
            }
            at += 1;
        }
        assert(self@.take(at as int) =~= self@);
        true
    }

    /// The width of the text in cells, held at the largest coordinate.
    pub fn width(&self) -> (width: u16)
        ensures
            width == text_width(self@),
    {
        let mut width: u16 = 0;
        let mut at: usize = 0;
        while at < self.clusters.len()
            invariant
                at <= self.clusters.len(),
                width == text_width(self@.take(at as int)),
            decreases self.clusters.len() - at,
        {
            proof {
                assert(self@.take(at + 1).drop_last() =~= self@.take(at as int));
            }
            width = width.saturating_add(self.clusters[at].width);
            at += 1;
        }
        assert(self@.take(at as int) =~= self@);
        width
    }

    /// Whether every cluster is ASCII.
    pub fn is_ascii(&self) -> (yes: bool)
        ensures
            yes == all_ascii(self@),
    {
        let mut at: usize = 0;
        while at < self.clusters.len()
            invariant
                at <= self.clusters.len(),
                forall|i: int| 0 <= i < at ==> ascii(#[trigger] self@[i].text),
            decreases self.clusters.len() - at,
        {
            if !is_ascii_text(self.clusters[at].text.as_str()) {
                assert(!ascii(self@[at as int].text));
                return false;
            }
            at += 1;
        }
        true
    }

    /// A text whose characters each take a cell of their own, such as the
    /// glyphs of borders, rails and marks.
    pub fn cells_of(line: &str) -> (text: Self)
        ensures
            text@ == ascii_clusters(line@),
    {
        let chars: Vec<char> = chars_of(line);
        let mut clusters: Vec<Cluster> = Vec::new();
        let mut at: usize = 0;
        while at < chars.len()
            invariant
                at <= chars.len(),
                chars@ == line@,
                clusters.len() == at,
                forall|i: int| 0 <= i < at ==> (#[trigger] clusters@[i])@ == ascii_clusters(line@)[i],
            decreases chars.len() - at,
        {
            let mut text: String = String::new();
            push_char(&mut text, chars[at]);
            assert(text@ =~= seq![line@[at as int]]);
            clusters.push(Cluster { text, width: 1 });
            at += 1;
        }
        let text = Text { clusters };
        assert(text@ =~= ascii_clusters(line@));
        text
    }
}

/// One cluster of one cell for each character of a line.
pub open spec fn ascii_clusters(line: Seq<char>) -> Seq<ClusterView> {
    Seq::new(line.len(), |i: int| ClusterView { text: seq![line[i]], width: 1 })
}

/// A longer run of clusters has at least as many characters.
proof fn content_grows(clusters: Seq<ClusterView>, at: int)
    requires
        0 <= at <= clusters.len(),
    ensures
        content(clusters.take(at)).len() <= content(clusters).len(),
    decreases clusters.len() - at,
{
    if at < clusters.len() {
        assert(clusters.take(at + 1).drop_last() =~= clusters.take(at));
        content_grows(clusters, at + 1);
    } else {
        assert(clusters.take(at) =~= clusters);
    }
}

/// `String::push`: appends one character.
#[verifier::external_body]
pub(crate) fn push_char(text: &mut String, c: char)
    ensures
        final(text)@ == old(text)@.push(c),
{
    text.push(c);
}

/// Text that fits, without line breaks, controls or clusters that take no cell,
/// is drawn as it is.
pub proof fn plain_text_is_drawn_whole(clusters: Seq<ClusterView>, room: int, pure_ascii: bool)
    requires
        cells(clusters) <= room,
        forall|i: int|
            0 <= i < clusters.len() ==> (#[trigger] clusters[i]).width > 0 && !has_control(
                clusters[i].text,
            ) && !stops_line(clusters[i].text, pure_ascii),
    ensures
        drawn(clusters, room, pure_ascii) == clusters,
    decreases clusters.len(),
{
    if clusters.len() > 0 {
        let rest = clusters.drop_first();
        cells_from_the_front(clusters);
        assert forall|i: int| 0 <= i < rest.len() implies (#[trigger] rest[i]).width > 0
            && !has_control(rest[i].text) && !stops_line(rest[i].text, pure_ascii) by {
            assert(rest[i] == clusters[i + 1]);
        }
        assert(clusters[0].width > 0);
        plain_text_is_drawn_whole(rest, room - clusters[0].width, pure_ascii);
        assert(seq![clusters[0]] + rest =~= clusters);
    } else {
        assert(drawn(clusters, room, pure_ascii) =~= clusters);
    }
}

/// Nothing behind a line break is drawn, and nothing before it is changed by it.
pub proof fn drawing_stops_at_line_breaks(
    front: Seq<ClusterView>,
    back: Seq<ClusterView>,
    room: int,
    pure_ascii: bool,
)
    requires
        back.len() > 0,
        stops_line(back[0].text, pure_ascii),
    ensures
        drawn(front + back, room, pure_ascii) == drawn(front, room, pure_ascii),
    decreases front.len(),
{
    let all = front + back;
    if front.len() > 0 {
        assert(all.drop_first() =~= front.drop_first() + back);
        assert(all[0] == front[0]);
        drawing_stops_at_line_breaks(front.drop_first(), back, room, pure_ascii);
        drawing_stops_at_line_breaks(
            front.drop_first(),
            back,
            room - front[0].width,
            pure_ascii,
        );
    } else {
        assert(all =~= back);
    }
}

} // verus!
