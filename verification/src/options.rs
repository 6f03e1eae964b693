use crate::color::AnsiColor;
use vstd::prelude::*;
use vstd::string::StrSliceExecFns;

verus! {

/// A resolved rendering configuration. Out-of-range values are normalized
/// by the renderer, not here: `width == 0` disables resampling and
/// `height == 0` asks for auto-scaling from the data range.
pub struct Config {
    pub width: i32,
    pub height: i32,
    pub offset: i32,
    pub caption: String,
    pub precision: u32,
    pub caption_color: AnsiColor,
    pub axis_color: AnsiColor,
    pub label_color: AnsiColor,
    pub series_colors: Vec<AnsiColor>,
}

/// The mathematical image of a `Config`: machine integers widened and the
/// caption and color list taken as sequences.
#[verifier::ext_equal]
pub ghost struct ConfigV {
    pub width: int,
    pub height: int,
    pub offset: int,
    pub caption: Seq<char>,
    pub precision: int,
    pub caption_color: AnsiColor,
    pub axis_color: AnsiColor,
    pub label_color: AnsiColor,
    pub series_colors: Seq<AnsiColor>,
}

impl View for Config {
    type V = ConfigV;

    open spec fn view(&self) -> ConfigV {
        ConfigV {
            width: self.width as int,
            height: self.height as int,
            offset: self.offset as int,
            caption: self.caption@,
            precision: self.precision as int,
            caption_color: self.caption_color,
            axis_color: self.axis_color,
            label_color: self.label_color,
            series_colors: self.series_colors@,
        }
    }
}

pub open spec fn spec_default_config() -> ConfigV {
    ConfigV {
        width: 150,
        height: 10,
        offset: 3,
        caption: Seq::<char>::empty(),
        precision: 2,
        caption_color: AnsiColor::White,
        axis_color: AnsiColor::White,
        label_color: AnsiColor::AliceBlue,
        series_colors: seq![
            AnsiColor::AliceBlue,
            AnsiColor::Silver,
            AnsiColor::White,
            AnsiColor::Black,
        ],
    }
}

impl Default for Config {
    /// The documented defaults: width 150, height 10, offset 3, empty
    /// caption, precision 2, and four fixed series colors.
    fn default() -> (c: Config)
        ensures
            c@ == spec_default_config(),
    {
        let c = Config {
            width: 150,
            height: 10,
            offset: 3,
            caption: String::new(),
            precision: 2,
            caption_color: AnsiColor::White,
            axis_color: AnsiColor::White,
            label_color: AnsiColor::AliceBlue,
            series_colors: vec![
                AnsiColor::AliceBlue,
                AnsiColor::Silver,
                AnsiColor::White,
                AnsiColor::Black,
            ],
        };
        proof {
            assert(c@ =~= spec_default_config());
        }
        c
    }
}

/// One characters-with-the-White_Space-property test, matching the set a
/// caption is trimmed of.
pub open spec fn is_ws_char(c: char) -> bool {
    ||| c == ' '
    ||| c == '\u{9}'
    ||| c == '\u{a}'
    ||| c == '\u{b}'
    ||| c == '\u{c}'
    ||| c == '\u{d}'
    ||| c == '\u{85}'
    ||| c == '\u{a0}'
    ||| c == '\u{1680}'
    ||| ('\u{2000}' <= c && c <= '\u{200a}')
    ||| c == '\u{2028}'
    ||| c == '\u{2029}'
    ||| c == '\u{202f}'
    ||| c == '\u{205f}'
    ||| c == '\u{3000}'
}

pub open spec fn spec_trim_front(s: Seq<char>) -> Seq<char>
    decreases s.len(),
{
    if s.len() > 0 && is_ws_char(s[0]) {
        spec_trim_front(s.drop_first())
    } else {
        s
    }
}

pub open spec fn spec_trim_back(s: Seq<char>) -> Seq<char>
    decreases s.len(),
{
    if s.len() > 0 && is_ws_char(s.last()) {
        spec_trim_back(s.drop_last())
    } else {
        s
    }
}

/// The sequence with leading and trailing whitespace removed.
pub open spec fn spec_trim(s: Seq<char>) -> Seq<char> {
    spec_trim_back(spec_trim_front(s))
}

fn is_ws(c: char) -> (b: bool)
    ensures
        b == is_ws_char(c),
{
    c == ' ' || c == '\u{9}' || c == '\u{a}' || c == '\u{b}' || c == '\u{c}' || c == '\u{d}'
        || c == '\u{85}' || c == '\u{a0}' || c == '\u{1680}' || ('\u{2000}' <= c && c
        <= '\u{200a}') || c == '\u{2028}' || c == '\u{2029}' || c == '\u{202f}' || c == '\u{205f}'
        || c == '\u{3000}'
}

proof fn lemma_trim_front_skip(s: Seq<char>, i: int)
    requires
        0 <= i <= s.len(),
        forall|k: int| 0 <= k < i ==> is_ws_char(s[k]),
        i == s.len() || !is_ws_char(s[i]),
    ensures
        spec_trim_front(s) == s.skip(i),
    decreases i,
{
    if i == 0 {
        assert(s.skip(0) =~= s);
    } else {
        let t = s.drop_first();
        assert(forall|k: int| 0 <= k < i - 1 ==> is_ws_char(t[k]));
        lemma_trim_front_skip(t, i - 1);
        assert(t.skip(i - 1) =~= s.skip(i));
    }
}

proof fn lemma_trim_back_take(s: Seq<char>, j: int)
    requires
        0 <= j <= s.len(),
        forall|k: int| j <= k < s.len() ==> is_ws_char(s[k]),
        j == 0 || !is_ws_char(s[j - 1]),
    ensures
        spec_trim_back(s) == s.take(j),
    decreases s.len() - j,
{
    if j == s.len() {
        assert(s.take(j) =~= s);
    } else {
        let t = s.drop_last();
        assert(is_ws_char(s.last()));
        lemma_trim_back_take(t, j);
        assert(t.take(j) =~= s.take(j));
    }
}

/// Removes leading and trailing whitespace.
pub fn trim_string(s: &String) -> (r: String)
    ensures
        r@ == spec_trim(s@),
{
    let n = s.as_str().unicode_len();
    let mut i: usize = 0;
    while i < n && is_ws(s.as_str().get_char(i))
        invariant
            0 <= i <= n,
            n == s@.len(),
            forall|k: int| 0 <= k < i ==> is_ws_char(s@[k]),
        decreases n - i,
    {
        i += 1;
    }
    let mut j: usize = n;
    while j > i && is_ws(s.as_str().get_char(j - 1))
        invariant
            i <= j <= n,
            n == s@.len(),
            forall|k: int| 0 <= k < i ==> is_ws_char(s@[k]),
            i == n || !is_ws_char(s@[i as int]),
            forall|k: int| j <= k < n ==> is_ws_char(s@[k]),
        decreases j,
    {
        j -= 1;
    }
    let sub = s.as_str().substring_char(i, j);
    proof {
        lemma_trim_front_skip(s@, i as int);
        let t = s@.skip(i as int);
        assert(forall|k: int| j - i <= k < t.len() ==> is_ws_char(t[k]));
        if j > i {
            assert(!is_ws_char(s@[j - 1]));
            assert(t[j - i - 1] == s@[j - 1]);
        }
        lemma_trim_back_take(t, j - i);
        assert(t.take(j - i) =~= s@.subrange(i as int, j as int));
    }
    sub.to_owned()
}

/// One recorded override of a configuration field.
pub enum GraphSetting {
    Width(i32),
    Height(i32),
    Offset(i32),
    Precision(u32),
    Caption(String),
    CaptionColor(AnsiColor),
    AxisColor(AnsiColor),
    LabelColor(AnsiColor),
    SeriesColors(Vec<AnsiColor>),
}

/// A single configuration mutation; a render call applies an ordered list
/// of these over the defaults, last write per field winning.
pub struct GraphOptionFunc {
    pub setting: GraphSetting,
}

/// What applying one option does to a configuration: width and height are
/// clamped to zero from below, a caption is trimmed, everything else is
/// stored as given.
pub open spec fn apply_spec(o: GraphOptionFunc, v: ConfigV) -> ConfigV {
    match o.setting {
        GraphSetting::Width(w) => ConfigV { width: if w > 0 { w as int } else { 0 }, ..v },
        GraphSetting::Height(h) => ConfigV { height: if h > 0 { h as int } else { 0 }, ..v },
        GraphSetting::Offset(x) => ConfigV { offset: x as int, ..v },
        GraphSetting::Precision(p) => ConfigV { precision: p as int, ..v },
        GraphSetting::Caption(t) => ConfigV { caption: spec_trim(t@), ..v },
        GraphSetting::CaptionColor(a) => ConfigV { caption_color: a, ..v },
        GraphSetting::AxisColor(a) => ConfigV { axis_color: a, ..v },
        GraphSetting::LabelColor(a) => ConfigV { label_color: a, ..v },
        GraphSetting::SeriesColors(sc) => ConfigV { series_colors: sc@, ..v },
    }
}

impl GraphOptionFunc {
    pub fn apply(&self, c: &mut Config)
        ensures
            final(c)@ == apply_spec(*self, old(c)@),
    {
        match &self.setting {
            GraphSetting::Width(w) => {
                if *w > 0 {
                    c.width = *w;
                } else {
                    c.width = 0;
                }
            },
            GraphSetting::Height(h) => {
                if *h > 0 {
                    c.height = *h;
                } else {
                    c.height = 0;
                }
            },
            GraphSetting::Offset(x) => {
                c.offset = *x;
            },
            GraphSetting::Precision(p) => {
                c.precision = *p;
            },
            GraphSetting::Caption(t) => {
                c.caption = trim_string(t);
            },
            GraphSetting::CaptionColor(a) => {
                c.caption_color = *a;
            },
            GraphSetting::AxisColor(a) => {
                c.axis_color = *a;
            },
            GraphSetting::LabelColor(a) => {
                c.label_color = *a;
            },
            GraphSetting::SeriesColors(sc) => {
                c.series_colors = clone_colors(sc);
            },
        }
        proof {
            assert(c@ =~= apply_spec(*self, old(c)@));
        }
    }
}

fn clone_colors(v: &Vec<AnsiColor>) -> (r: Vec<AnsiColor>)
    ensures
        r@ == v@,
{
    let mut r: Vec<AnsiColor> = Vec::new();
    let mut i: usize = 0;
    while i < v.len()
        invariant
            0 <= i <= v@.len(),
            r@ == v@.take(i as int),
        decreases v@.len() - i,
    {
        r.push(v[i]);
        proof {
            assert(r@ =~= v@.take(i + 1));
        }
        i += 1;
    }
    proof {
        assert(v@.take(v@.len() as int) =~= v@);
    }
    r
}

/// Sets the resampling width; non-positive requests disable resampling.
pub fn width(w: i32) -> (o: GraphOptionFunc)
    ensures
        o.setting == GraphSetting::Width(w),
{
    GraphOptionFunc { setting: GraphSetting::Width(w) }
}

/// Sets the chart height in rows; non-positive requests select auto-scaling.
pub fn height(h: i32) -> (o: GraphOptionFunc)
    ensures
        o.setting == GraphSetting::Height(h),
{
    GraphOptionFunc { setting: GraphSetting::Height(h) }
}

/// Sets the label-gutter width in columns.
pub fn offset(x: i32) -> (o: GraphOptionFunc)
    ensures
        o.setting == GraphSetting::Offset(x),
{
    GraphOptionFunc { setting: GraphSetting::Offset(x) }
}

/// Sets the number of digits after the decimal point in row labels.
pub fn precision(p: u32) -> (o: GraphOptionFunc)
    ensures
        o.setting == GraphSetting::Precision(p),
{
    GraphOptionFunc { setting: GraphSetting::Precision(p) }
}

/// Sets the caption shown under the chart; surrounding whitespace is
/// trimmed when the option is applied.
pub fn caption(text: String) -> (o: GraphOptionFunc)
    ensures
        o.setting == GraphSetting::Caption(text),
{
    GraphOptionFunc { setting: GraphSetting::Caption(text) }
}

pub fn caption_color(ac: AnsiColor) -> (o: GraphOptionFunc)
    ensures
        o.setting == GraphSetting::CaptionColor(ac),
{
    GraphOptionFunc { setting: GraphSetting::CaptionColor(ac) }
}

pub fn axis_color(ac: AnsiColor) -> (o: GraphOptionFunc)
    ensures
        o.setting == GraphSetting::AxisColor(ac),
{
    GraphOptionFunc { setting: GraphSetting::AxisColor(ac) }
}

pub fn label_color(ac: AnsiColor) -> (o: GraphOptionFunc)
    ensures
        o.setting == GraphSetting::LabelColor(ac),
{
    GraphOptionFunc { setting: GraphSetting::LabelColor(ac) }
}

pub fn series_colors(ac: Vec<AnsiColor>) -> (o: GraphOptionFunc)
    ensures
        o.setting == GraphSetting::SeriesColors(ac),
{
    GraphOptionFunc { setting: GraphSetting::SeriesColors(ac) }
}

/// The label gutter is never narrower than the default: a non-positive
/// offset is reset to three columns before rendering.
pub fn normalize_offset(o: i32) -> (r: i32)
    ensures
        r == if o <= 0 {
            3int
        } else {
            o as int
        },
        r >= 1,
{
    if o <= 0 {
        3
    } else {
        o
    }
}

/// Applying a list of options to a configuration, in order.
pub open spec fn configure_spec(opts: Seq<GraphOptionFunc>, v: ConfigV) -> ConfigV
    decreases opts.len(),
{
    if opts.len() == 0 {
        v
    } else {
        configure_spec(opts.drop_first(), apply_spec(opts[0], v))
    }
}

/// Applies every option to `defaults` in order; a later option overrides
/// an earlier one that touches the same field.
pub fn configure(defaults: Config, options: Vec<GraphOptionFunc>) -> (c: Config)
    ensures
        c@ == configure_spec(options@, defaults@),
{
    let ghost d0 = defaults@;
    let mut c = defaults;
    let n = options.len();
    let mut idx: usize = 0;
    proof {
        assert(options@.skip(0) =~= options@);
    }
    while idx < n
        invariant
            0 <= idx <= n,
            n == options@.len(),
            configure_spec(options@.skip(idx as int), c@) == configure_spec(options@, d0),
        decreases n - idx,
    {
        options[idx].apply(&mut c);
        proof {
            assert(options@.skip(idx as int).drop_first() =~= options@.skip(idx + 1));
            assert(options@.skip(idx as int)[0] == options@[idx as int]);
        }
        idx += 1;
    }
    proof {
        assert(options@.skip(n as int) =~= Seq::<GraphOptionFunc>::empty());
    }
    c
}

} // verus!
