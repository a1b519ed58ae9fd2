//! Presentations: pluggable renderers that turn provenance-tagged
//! segments into display text.
//!
//! A presentation maps each segment to one styled piece of output text,
//! in order; writing the pieces to the output stream (flushing after
//! each piece) is left to the caller. The two built-in presentations
//! style a segment by its provenance: [`BasicColored`] with a red or
//! green foreground, [`BasicStyled`] with underlining or bold type,
//! shared segments staying unstyled in both. The ANSI styling itself is
//! done by the `colored` crate, which leaves text unstyled when coloring
//! is disabled for the process.

use vstd::prelude::*;
use crate::Provenance;
use crate::ExtensionPoint;
use crate::segment::Segment;
use crate::segment::SegModel;
use crate::segment::deep_segs;

verus! {

/// The mathematical value of a list of output strings.
pub open spec fn deep_strs(s: Seq<String>) -> Seq<Seq<char>> {
    s.map_values(|x: String| x@)
}

/// `body` wrapped in the ANSI control sequence with parameter `code`,
/// followed by the ANSI reset sequence.
pub open spec fn csi_wrapped(body: Seq<char>, code: Seq<char>) -> Seq<char> {
    seq!['\u{1b}', '['] + code + seq!['m'] + body + seq!['\u{1b}', '[', '0', 'm']
}

/// `s` wrapped in the red-foreground sequence.
pub open spec fn red_wrapped(s: Seq<char>) -> Seq<char> {
    csi_wrapped(s, seq!['3', '1'])
}

/// `s` wrapped in the green-foreground sequence.
pub open spec fn green_wrapped(s: Seq<char>) -> Seq<char> {
    csi_wrapped(s, seq!['3', '2'])
}

/// `s` wrapped in the bold sequence.
pub open spec fn bold_wrapped(s: Seq<char>) -> Seq<char> {
    csi_wrapped(s, seq!['1'])
}

/// `s` wrapped in the underline sequence.
pub open spec fn underline_wrapped(s: Seq<char>) -> Seq<char> {
    csi_wrapped(s, seq!['4'])
}

/// `s` holds no ANSI escape character.
pub open spec fn no_escape(s: Seq<char>) -> bool {
    forall|i: int| 0 <= i < s.len() ==> (#[trigger] s[i]) != '\u{1b}'
}

/// Relies on `colored`'s `Colorize::normal` for `&str` and the
/// `ColoredString` display implementation: a string carrying no color
/// and no style is displayed as its input, unchanged.
#[verifier::external_body]
fn paint_plain(s: &str) -> (r: String)
    ensures
        r@ == s@,
{
    colored::Colorize::normal(s).to_string()
}

/// Relies on `colored`'s `Colorize::red` for `&str` and the
/// `ColoredString` display implementation: when coloring is disabled
/// for the process the input is displayed unchanged; when it is
/// enabled, an input free of escape characters is wrapped in the
/// red-foreground sequence and the reset sequence.
#[verifier::external_body]
fn paint_red(s: &str) -> (r: String)
    ensures
        no_escape(s@) ==> (r@ == s@ || r@ == red_wrapped(s@)),
{
    colored::Colorize::red(s).to_string()
}

/// Relies on `colored`'s `Colorize::green` for `&str` and the
/// `ColoredString` display implementation, as for the red case.
#[verifier::external_body]
fn paint_green(s: &str) -> (r: String)
    ensures
        no_escape(s@) ==> (r@ == s@ || r@ == green_wrapped(s@)),
{
    colored::Colorize::green(s).to_string()
}

/// Relies on `colored`'s `Colorize::bold` for `&str` and the
/// `ColoredString` display implementation, as for the red case.
#[verifier::external_body]
fn paint_bold(s: &str) -> (r: String)
    ensures
        no_escape(s@) ==> (r@ == s@ || r@ == bold_wrapped(s@)),
{
    colored::Colorize::bold(s).to_string()
}

/// Relies on `colored`'s `Colorize::underline` for `&str` and the
/// `ColoredString` display implementation, as for the red case.
#[verifier::external_body]
fn paint_underline(s: &str) -> (r: String)
    ensures
        no_escape(s@) ==> (r@ == s@ || r@ == underline_wrapped(s@)),
{
    colored::Colorize::underline(s).to_string()
}

/// A pluggable renderer: from a sequence of provenance-tagged segments
/// it computes one piece of output text per segment, in order. Each
/// implementation states its own exact semantics through `render_ens`.
pub trait Presentation: ExtensionPoint {
    /// What this presentation's `render` promises of its output.
    spec fn render_ens(&self, diff: Seq<SegModel>, out: Seq<Seq<char>>) -> bool;

    fn render(&self, diff: Vec<Segment>) -> (r: Vec<String>)
        ensures
            self.render_ens(deep_segs(diff@), deep_strs(r@)),
    ;
}

/// How [`BasicColored`] styles one segment: old-only text gains a red
/// foreground, new-only text a green one, shared text stays unchanged;
/// a segment is left unchanged when coloring is disabled.
pub open spec fn colored_seg_ens(seg: SegModel, out: Seq<char>) -> bool {
    match seg.1 {
        Provenance::Old => no_escape(seg.0) ==> (out == seg.0 || out == red_wrapped(seg.0)),
        Provenance::Shared => out == seg.0,
        Provenance::New => no_escape(seg.0) ==> (out == seg.0 || out == green_wrapped(seg.0)),
    }
}

/// How [`BasicStyled`] styles one segment: old-only text is underlined,
/// new-only text is made bold, shared text stays unchanged; a segment is
/// left unchanged when coloring is disabled.
pub open spec fn styled_seg_ens(seg: SegModel, out: Seq<char>) -> bool {
    match seg.1 {
        Provenance::Old => no_escape(seg.0) ==> (out == seg.0 || out == underline_wrapped(seg.0)),
        Provenance::Shared => out == seg.0,
        Provenance::New => no_escape(seg.0) ==> (out == seg.0 || out == bold_wrapped(seg.0)),
    }
}

/// One output text per segment, each styled as `per_seg` demands.
pub open spec fn render_each(
    diff: Seq<SegModel>,
    out: Seq<Seq<char>>,
    per_seg: spec_fn(SegModel, Seq<char>) -> bool,
) -> bool {
    &&& out.len() == diff.len()
    &&& forall|i: int| 0 <= i < diff.len() ==> per_seg(#[trigger] diff[i], out[i])
}

/// A presentation that colors old-only parts red and new-only parts
/// green, leaving shared parts unstyled.
#[derive(Clone, Copy, Debug, PartialEq, Eq, PartialOrd, Ord, Hash, Default, Structural)]
pub struct BasicColored;

impl ExtensionPoint for BasicColored {
    open spec fn spec_name(&self) -> Seq<char> {
        "basic-colored"@
    }

    open spec fn spec_description(&self) -> Seq<char> {
        "Makes new-file-only parts red and old-file-only parts green"@
    }

    fn name(&self) -> (r: String) {
        "basic-colored".to_owned()
    }

    fn description(&self) -> (r: String) {
        "Makes new-file-only parts red and old-file-only parts green".to_owned()
    }
}

impl Presentation for BasicColored {
    open spec fn render_ens(&self, diff: Seq<SegModel>, out: Seq<Seq<char>>) -> bool {
        render_each(diff, out, |seg: SegModel, o: Seq<char>| colored_seg_ens(seg, o))
    }

    fn render(&self, diff: Vec<Segment>) -> (r: Vec<String>) {
        let mut out: Vec<String> = Vec::new();
        let mut i: usize = 0;
        while i < diff.len()
            invariant
                i <= diff.len(),
                out@.len() == i,
                forall|j: int|
                    0 <= j < i ==> colored_seg_ens(
                        #[trigger] deep_segs(diff@)[j],
                        deep_strs(out@)[j],
                    ),
            decreases diff.len() - i,
        {
            let ghost prev = out@;
            let styled = match diff[i].1 {
                Provenance::Old => paint_red(diff[i].0.as_str()),
                Provenance::Shared => paint_plain(diff[i].0.as_str()),
                Provenance::New => paint_green(diff[i].0.as_str()),
            };
            out.push(styled);
            proof {
                assert forall|j: int| 0 <= j < i + 1 implies colored_seg_ens(
                    #[trigger] deep_segs(diff@)[j],
                    deep_strs(out@)[j],
                ) by {
                    if j < i {
                        assert(out@[j] == prev[j]);
                        assert(deep_strs(out@)[j] == deep_strs(prev)[j]);
                    } else {
                        assert(deep_strs(out@)[j] == out@[j]@);
                        assert(deep_segs(diff@)[j] == (diff@[j].0@, diff@[j].1));
                    }
                }
            }
            i += 1;
        }
        out
    }
}

/// A presentation that underlines old-only parts and makes new-only
/// parts bold, leaving shared parts unstyled.
#[derive(Clone, Copy, Debug, PartialEq, Eq, PartialOrd, Ord, Hash, Default, Structural)]
pub struct BasicStyled;

impl ExtensionPoint for BasicStyled {
    open spec fn spec_name(&self) -> Seq<char> {
        "basic-styled"@
    }

    open spec fn spec_description(&self) -> Seq<char> {
        "Makes new-file-only parts bold and old-file-only parts underlined"@
    }

    fn name(&self) -> (r: String) {
        "basic-styled".to_owned()
    }

    fn description(&self) -> (r: String) {
        "Makes new-file-only parts bold and old-file-only parts underlined".to_owned()
    }
}

impl Presentation for BasicStyled {
    open spec fn render_ens(&self, diff: Seq<SegModel>, out: Seq<Seq<char>>) -> bool {
        render_each(diff, out, |seg: SegModel, o: Seq<char>| styled_seg_ens(seg, o))
    }

    fn render(&self, diff: Vec<Segment>) -> (r: Vec<String>) {
        let mut out: Vec<String> = Vec::new();
        let mut i: usize = 0;
        while i < diff.len()
            invariant
                i <= diff.len(),
                out@.len() == i,
                forall|j: int|
                    0 <= j < i ==> styled_seg_ens(
                        #[trigger] deep_segs(diff@)[j],
                        deep_strs(out@)[j],
                    ),
            decreases diff.len() - i,
        {
            let ghost prev = out@;
            let styled = match diff[i].1 {
                Provenance::Old => paint_underline(diff[i].0.as_str()),
                Provenance::Shared => paint_plain(diff[i].0.as_str()),
                Provenance::New => paint_bold(diff[i].0.as_str()),
            };
            out.push(styled);
            proof {
                assert forall|j: int| 0 <= j < i + 1 implies styled_seg_ens(
                    #[trigger] deep_segs(diff@)[j],
                    deep_strs(out@)[j],
                ) by {
                    if j < i {
                        assert(out@[j] == prev[j]);
                        assert(deep_strs(out@)[j] == deep_strs(prev)[j]);
                    } else {
                        assert(deep_strs(out@)[j] == out@[j]@);
                        assert(deep_segs(diff@)[j] == (diff@[j].0@, diff@[j].1));
                    }
                }
            }
            i += 1;
        }
        out
    }
}

} // verus!
