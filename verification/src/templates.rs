//! Template variants, the comment-annotated template format, and the
//! assignment of a variant to each connected monitor.

use vstd::prelude::*;
use vstd::string::StrSliceExecFns;
use vstd::string::StringExecFns;
use crate::cache::decimal_of;
use crate::cache::u64_to_string;
use crate::config::Config;
use crate::document::clone_document;
use crate::document::doc_json_of;
use crate::document::document_to_pretty_json;
use crate::document::parse_document_array;
use crate::document::parsed_docs_of;
use crate::document::set_document_output;
use crate::document::with_output_of;
use crate::errors::ManagerError;
use crate::monitor::vec_contains_string;
use crate::text::chars_of;
use crate::text::find_char;
use crate::text::find_char_from;
use crate::text::find_seq;
use crate::text::find_seq_from;
use crate::text::lemma_find_char_from;
use crate::text::lines_of;
use crate::text::split_lines;
use crate::text::contains_range;
use crate::text::contains_seq;
use crate::text::starts_with_range;
use crate::text::starts_with_seq;
use crate::text::trim_range;
use crate::text::trim_seq;
use crate::window_manager::WindowManager;

verus! {

/// The mathematical form of a template variant: the tag alone, with a
/// custom variant's name as its character sequence.
pub enum TemplateTag {
    Full,
    Simple,
    Custom(Seq<char>),
}

/// The qualitative kind of a template: the full layout, the simplified
/// one, or a named custom layout.
#[derive(Debug, Clone)]
pub enum TemplateType {
    Full,
    Simple,
    Custom(String),
}

impl View for TemplateType {
    type V = TemplateTag;

    open spec fn view(&self) -> TemplateTag {
        match self {
            TemplateType::Full => TemplateTag::Full,
            TemplateType::Simple => TemplateTag::Simple,
            TemplateType::Custom(name) => TemplateTag::Custom(name@),
        }
    }
}

impl PartialEq for TemplateType {
    fn eq(&self, other: &TemplateType) -> (r: bool) {
        match self {
            TemplateType::Full => matches!(other, TemplateType::Full),
            TemplateType::Simple => matches!(other, TemplateType::Simple),
            TemplateType::Custom(a) => match other {
                TemplateType::Custom(b) => a.eq(b),
                _ => false,
            },
        }
    }
}

impl vstd::std_specs::cmp::PartialEqSpecImpl for TemplateType {
    open spec fn obeys_eq_spec() -> bool {
        true
    }

    open spec fn eq_spec(&self, other: &TemplateType) -> bool {
        self@ == other@
    }
}

impl DeepView for TemplateType {
    type V = TemplateTag;

    open spec fn deep_view(&self) -> TemplateTag {
        self.view()
    }
}

impl TemplateType {
    /// A copy spelling the same variant.
    pub fn duplicate(&self) -> (r: TemplateType)
        ensures
            r@ == self@,
    {
        match self {
            TemplateType::Full => TemplateType::Full,
            TemplateType::Simple => TemplateType::Simple,
            TemplateType::Custom(name) => TemplateType::Custom(name.clone()),
        }
    }
}

/// The variant a template comment names: one holding `TPL:FULL` names the
/// full variant, one holding `TPL:SIMPLE` the simple one, and one holding
/// the marker prefix with any other suffix names the custom variant
/// spelled (trimmed) after the first `TPL:`; any other comment names none.
pub open spec fn comment_marker(c: Seq<char>) -> Option<TemplateTag> {
    if contains_seq(c, "TPL:FULL"@) {
        Some(TemplateTag::Full)
    } else if contains_seq(c, "TPL:SIMPLE"@) {
        Some(TemplateTag::Simple)
    } else if contains_seq(c, "TPL:"@) {
        Some(
            TemplateTag::Custom(
                trim_seq(
                    c.subrange(
                        find_seq_from(c, "TPL:"@, 0) + "TPL:"@.len(),
                        c.len() as int,
                    ),
                ),
            ),
        )
    } else {
        None
    }
}

impl TemplateType {
    /// Reads a template comment as the variant marker it carries, if any.
    pub fn from_comment(comment: &str) -> (r: Option<TemplateType>)
        ensures
            match r {
                Some(t) => comment_marker(comment@) == Some(t@),
                None => comment_marker(comment@) is None,
            },
    {
        let v = chars_of(comment);
        let n = v.len();
        let kw_full = chars_of("TPL:FULL");
        let kw_simple = chars_of("TPL:SIMPLE");
        let kw_prefix = chars_of("TPL:");
        proof {
            assert(v@.subrange(0, n as int) =~= comment@);
        }
        if contains_range(&v, 0, n, &kw_full) {
            Some(TemplateType::Full)
        } else if contains_range(&v, 0, n, &kw_simple) {
            Some(TemplateType::Simple)
        } else if contains_range(&v, 0, n, &kw_prefix) {
            let j = find_seq(&v, 0, n, &kw_prefix);
            proof {
                crate::text::lemma_find_seq_from(comment@, "TPL:"@, 0);
                let idx = choose|idx: int|
                    0 <= idx && idx + "TPL:"@.len() <= comment@.len()
                        && #[trigger] comment@.subrange(idx, idx + "TPL:"@.len() as int)
                        == "TPL:"@;
                assert(j + "TPL:"@.len() <= idx + "TPL:"@.len() <= n);
            }
            let start = j + kw_prefix.len();
            let (a, b) = trim_range(&v, start, n);
            proof {
                assert(v@.subrange(start as int, n as int) =~= comment@.subrange(
                    find_seq_from(comment@, "TPL:"@, 0) + "TPL:"@.len(),
                    comment@.len() as int,
                ));
                assert(comment@.subrange(a as int, b as int) =~= v@.subrange(
                    a as int,
                    b as int,
                ));
            }
            Some(TemplateType::Custom(comment.substring_char(a, b).to_owned()))
        } else {
            None
        }
    }
}

/// The file-name piece a variant contributes to its generated
/// configuration path.
pub open spec fn spec_variant_file_str(t: TemplateTag) -> Seq<char> {
    match t {
        TemplateTag::Full => "full"@,
        TemplateTag::Simple => "simple"@,
        TemplateTag::Custom(name) => name,
    }
}

impl TemplateType {
    /// Executable form of [`spec_variant_file_str`].
    pub fn variant_file_str(&self) -> (r: &str)
        ensures
            r@ == spec_variant_file_str(self@),
    {
        match self {
            TemplateType::Full => "full",
            TemplateType::Simple => "simple",
            TemplateType::Custom(name) => name.as_str(),
        }
    }
}

/// The per-manager template file path under the given home directory.
pub open spec fn spec_templates_path(home: Seq<char>, wm: WindowManager) -> Seq<char> {
    home + "/.config/waybar/templates/"@ + wm.spec_str() + ".jsonc"@
}

/// Executable form of [`spec_templates_path`].
pub fn get_templates_path(home: &str, wm: &WindowManager) -> (r: String)
    ensures
        r@ == spec_templates_path(home@, *wm),
{
    let mut p = home.to_owned();
    p.append("/.config/waybar/templates/");
    p.append(wm.as_str());
    p.append(".jsonc");
    p
}

/// The path of the generated configuration file for one (window manager,
/// monitor, variant) triple, under the given home directory.
pub open spec fn spec_generated_config_path(
    home: Seq<char>,
    wm: WindowManager,
    monitor: Seq<char>,
    t: TemplateTag,
) -> Seq<char> {
    home + "/.config/waybar/generated/"@ + wm.spec_str() + "_"@ + monitor + "_"@
        + spec_variant_file_str(t) + ". json"@
}

/// Executable form of [`spec_generated_config_path`].
pub fn get_generated_config_path(
    home: &str,
    wm: &WindowManager,
    monitor: &str,
    template_type: &TemplateType,
) -> (r: String)
    ensures
        r@ == spec_generated_config_path(home@, *wm, monitor@, template_type@),
{
    let mut p = home.to_owned();
    p.append("/.config/waybar/generated/");
    p.append(wm.as_str());
    p.append("_");
    p.append(monitor);
    p.append("_");
    p.append(template_type.variant_file_str());
    p.append(". json");
    p
}

/// The position just past the closing quote of a string literal whose body
/// starts at `i`, honouring backslash escapes; `s.len()` if the literal
/// never closes.
pub open spec fn string_body_end(s: Seq<char>, i: int, escaped: bool) -> int
    decreases s.len() - i when 0 <= i <= s.len()
{
    if i >= s.len() {
        s.len() as int
    } else if escaped {
        string_body_end(s, i + 1, false)
    } else if s[i] == '\\' {
        string_body_end(s, i + 1, true)
    } else if s[i] == '"' {
        i + 1
    } else {
        string_body_end(s, i + 1, false)
    }
}

/// [`string_body_end`] stays within `[i, s.len()]`.
pub proof fn lemma_string_body_end(s: Seq<char>, i: int, escaped: bool)
    requires
        0 <= i <= s.len(),
    ensures
        i <= string_body_end(s, i, escaped) <= s.len(),
    decreases s.len() - i,
{
    if i < s.len() && !(!escaped && s[i] == '"') {
        lemma_string_body_end(s, i + 1, if escaped { false } else { s[i] == '\\' });
    }
}

/// `s[i..]` with line comments removed: outside string literals, `//`
/// opens a comment running to the next newline, and the newline itself is
/// kept so that line numbers stay stable; inside a double-quoted literal
/// (with backslash escapes) everything is copied verbatim, a `//` too.
pub open spec fn strip_from(s: Seq<char>, i: int) -> Seq<char>
    decreases s.len() - i when 0 <= i <= s.len() via strip_from_decreases
{
    if i >= s.len() {
        Seq::empty()
    } else if i + 1 < s.len() && s[i] == '/' && s[i + 1] == '/' {
        let j = find_char_from(s, '\n', i + 2);
        if j == s.len() {
            Seq::empty()
        } else {
            seq!['\n'] + strip_from(s, j + 1)
        }
    } else if s[i] == '"' {
        let j = string_body_end(s, i + 1, false);
        s.subrange(i, j) + strip_from(s, j)
    } else {
        seq![s[i]] + strip_from(s, i + 1)
    }
}

#[via_fn]
proof fn strip_from_decreases(s: Seq<char>, i: int) {
    if 0 <= i < s.len() {
        if i + 1 < s.len() && s[i] == '/' && s[i + 1] == '/' {
            lemma_find_char_from(s, '\n', i + 2);
        } else if s[i] == '"' {
            lemma_string_body_end(s, i + 1, false);
        }
    }
}

/// The whole text with line comments removed, string literals kept intact.
pub open spec fn strip_comments_spec(s: Seq<char>) -> Seq<char> {
    strip_from(s, 0)
}

/// Removes line comments from the template text, leaving string literals
/// (and the newlines that closed each comment) untouched.
pub fn strip_comments(content: &str) -> (r: String)
    ensures
        r@ == strip_comments_spec(content@),
{
    let v = chars_of(content);
    let n = v.len();
    let mut out = String::new();
    let mut i: usize = 0;
    while i < n
        invariant
            n == v@.len(),
            i <= n,
            v@ == content@,
            out@ + strip_from(v@, i as int) == strip_from(v@, 0),
        decreases n - i,
    {
        let ghost i0 = i as int;
        let c = v[i];
        if c == '/' && i + 1 < n && v[i + 1] == '/' {
            let j = find_char(&v, '\n', i + 2, n);
            proof {
                assert(v@.subrange(0, n as int) =~= v@);
            }
            if j == n {
                i = n;
            } else {
                out.append("\n");
                proof {
                    reveal_strlit("\n");
                    assert("\n"@ =~= seq!['\n']);
                }
                i = j + 1;
            }
        } else if c == '"' {
            let mut k: usize = i + 1;
            let mut escaped = false;
            while k < n
                invariant_except_break
                    string_body_end(v@, i0 + 1, false) == string_body_end(
                        v@,
                        k as int,
                        escaped,
                    ),
                invariant
                    i0 + 1 <= k <= n,
                    n == v@.len(),
                ensures
                    i0 + 1 <= k <= n,
                    string_body_end(v@, i0 + 1, false) == k,
                decreases n - k,
            {
                let c2 = v[k];
                if escaped {
                    escaped = false;
                    k = k + 1;
                } else if c2 == '\\' {
                    escaped = true;
                    k = k + 1;
                } else if c2 == '"' {
                    k = k + 1;
                    break;
                } else {
                    k = k + 1;
                }
            }
            out.append(content.substring_char(i, k));
            i = k;
        } else {
            out.append(content.substring_char(i, i + 1));
            proof {
                assert(content@.subrange(i0, i0 + 1) =~= seq![v@[i0]]);
            }
            i = i + 1;
        }
        proof {
            assert(out@ + strip_from(v@, i as int) =~= strip_from(v@, 0));
        }
    }
    proof {
        assert(out@ =~= strip_from(v@, 0));
    }
    out
}

/// No position of `s[i..]`, read as the stripper reads it (string
/// literals skipped whole), opens a line comment.
pub open spec fn comment_free_from(s: Seq<char>, i: int) -> bool
    decreases s.len() - i when 0 <= i <= s.len() via comment_free_from_decreases
{
    if i >= s.len() {
        true
    } else if i + 1 < s.len() && s[i] == '/' && s[i + 1] == '/' {
        false
    } else if s[i] == '"' {
        comment_free_from(s, string_body_end(s, i + 1, false))
    } else {
        comment_free_from(s, i + 1)
    }
}

#[via_fn]
proof fn comment_free_from_decreases(s: Seq<char>, i: int) {
    if 0 <= i < s.len() && s[i] == '"' {
        lemma_string_body_end(s, i + 1, false);
    }
}

proof fn lemma_strip_from_identity(s: Seq<char>, i: int)
    requires
        0 <= i <= s.len(),
        comment_free_from(s, i),
    ensures
        strip_from(s, i) == s.subrange(i, s.len() as int),
    decreases s.len() - i,
{
    if i >= s.len() {
        assert(strip_from(s, i) =~= s.subrange(i, s.len() as int));
    } else if s[i] == '"' {
        lemma_string_body_end(s, i + 1, false);
        let e = string_body_end(s, i + 1, false);
        lemma_strip_from_identity(s, e);
        assert(s.subrange(i, e) + s.subrange(e, s.len() as int) =~= s.subrange(
            i,
            s.len() as int,
        ));
    } else {
        lemma_strip_from_identity(s, i + 1);
        assert(seq![s[i]] + s.subrange(i + 1, s.len() as int) =~= s.subrange(
            i,
            s.len() as int,
        ));
    }
}

/// Comment stripping is the identity on comment-free text: where no
/// position outside a string literal opens `//`, the cleaned text is the
/// text itself, so such a template parses exactly as its raw form would.
pub proof fn lemma_strip_identity_on_comment_free(s: Seq<char>)
    requires
        comment_free_from(s, 0),
    ensures
        strip_comments_spec(s) == s,
{
    lemma_strip_from_identity(s, 0);
    assert(s.subrange(0, s.len() as int) =~= s);
}

/// Inside a double-quoted string literal the stripper copies content
/// verbatim: at a quote, the whole literal up to its closing quote
/// (backslash escapes honoured, any `//` it holds included) stands
/// unchanged at the front of the stripped remainder. A `//` inside a
/// string literal is therefore never read as a comment.
pub proof fn lemma_literal_copied_verbatim(s: Seq<char>, i: int)
    requires
        0 <= i < s.len(),
        s[i] == '"',
    ensures
        strip_from(s, i).take(string_body_end(s, i + 1, false) - i) == s.subrange(
            i,
            string_body_end(s, i + 1, false),
        ),
{
    lemma_string_body_end(s, i + 1, false);
    let e = string_body_end(s, i + 1, false);
    assert(strip_from(s, i) == s.subrange(i, e) + strip_from(s, e));
    assert((s.subrange(i, e) + strip_from(s, e)).take(e - i) =~= s.subrange(i, e));
}

/// The variant marker one line carries: its trimmed form must open with
/// `//` and name a variant as [`comment_marker`] reads it.
pub open spec fn line_marker(l: Seq<char>) -> Option<TemplateTag> {
    if starts_with_seq(trim_seq(l), "//"@) {
        comment_marker(trim_seq(l))
    } else {
        None
    }
}

/// The markers carried by the lines `ls[i..]`, in line order.
pub open spec fn markers_from_lines(ls: Seq<Seq<char>>, i: int) -> Seq<TemplateTag>
    decreases ls.len() - i when 0 <= i <= ls.len()
{
    if i >= ls.len() {
        Seq::empty()
    } else {
        (match line_marker(ls[i]) {
            Some(t) => seq![t],
            None => Seq::empty(),
        }) + markers_from_lines(ls, i + 1)
    }
}

/// The ordered variant markers of the raw template text: one per comment
/// line naming a variant, in file order. This list correlates with the
/// parsed documents by position only, not with adjacent source lines.
pub open spec fn markers_of(s: Seq<char>) -> Seq<TemplateTag> {
    markers_from_lines(lines_of(s), 0)
}

/// Collects the ordered variant markers of the raw template text.
pub fn extract_markers(content: &str) -> (r: Vec<TemplateType>)
    ensures
        r.deep_view() == markers_of(content@),
{
    let v = chars_of(content);
    let kw_slashes = chars_of("//");
    let lines = split_lines(&v);
    let ghost ls = lines_of(v@);
    let nl = lines.len();
    let mut r: Vec<TemplateType> = Vec::new();
    let mut k: usize = 0;
    while k < nl
        invariant
            nl == lines.len(),
            k <= nl,
            v@ == content@,
            kw_slashes@ == "//"@,
            ls == lines_of(v@),
            lines@.len() == ls.len(),
            forall|t: int|
                0 <= t < lines@.len() ==> (#[trigger] lines@[t]).0 <= lines@[t].1 <= v@.len()
                    && v@.subrange(lines@[t].0 as int, lines@[t].1 as int) == ls[t],
            r.deep_view() + markers_from_lines(ls, k as int) == markers_from_lines(ls, 0),
        decreases nl - k,
    {
        let (lo, hi) = lines[k];
        let (a, b) = trim_range(&v, lo, hi);
        if starts_with_range(&v, a, b, &kw_slashes) {
            proof {
                assert(v@.subrange(a as int, b as int) == trim_seq(ls[k as int]));
            }
            match TemplateType::from_comment(content.substring_char(a, b)) {
                Some(t) => {
                    r.push(t);
                },
                None => {},
            }
        }
        proof {
            assert(r.deep_view() + markers_from_lines(ls, k + 1) =~= markers_from_lines(
                ls,
                0,
            ));
        }
        k = k + 1;
    }
    proof {
        assert(markers_from_lines(ls, nl as int) =~= Seq::<TemplateTag>::empty());
        assert(r.deep_view() =~= markers_from_lines(ls, 0));
    }
    r
}

/// One loaded template: its variant and its document. The document is a
/// generic structured-value tree, carried opaquely.
#[derive(Debug)]
pub struct TemplateConfig {
    pub template_type: TemplateType,
    pub config: serde_json::Value,
}

/// The variant a document at position `i` falls back to when no marker
/// stands at that position: the first document is the full layout, the
/// second the simple one, and any later one a custom variant named after
/// its position.
pub open spec fn fallback_tag(i: int) -> TemplateTag {
    if i == 0 {
        TemplateTag::Full
    } else if i == 1 {
        TemplateTag::Simple
    } else {
        TemplateTag::Custom("template_"@ + decimal_of(i as nat))
    }
}

/// The variant of the document at position `i`: the marker at the same
/// position if one was collected, the positional fallback otherwise.
pub open spec fn assigned_tag(markers: Seq<TemplateTag>, i: int) -> TemplateTag {
    if i < markers.len() {
        markers[i]
    } else {
        fallback_tag(i)
    }
}

/// Zips parsed documents with the collected markers by position, falling
/// back to the positional rule where markers run out.
pub fn assign_template_types(
    markers: &Vec<TemplateType>,
    documents: Vec<serde_json::Value>,
) -> (r: Vec<TemplateConfig>)
    ensures
        r@.len() == documents@.len(),
        forall|i: int|
            0 <= i < r@.len() ==> (#[trigger] r@[i]).template_type@ == assigned_tag(
                markers.deep_view(),
                i,
            ) && r@[i].config == documents@[i],
{
    let n = documents.len();
    let mut r: Vec<TemplateConfig> = Vec::new();
    let mut i: usize = 0;
    while i < n
        invariant
            n == documents@.len(),
            i <= n,
            r@.len() == i,
            forall|k: int|
                0 <= k < i ==> (#[trigger] r@[k]).template_type@ == assigned_tag(
                    markers.deep_view(),
                    k,
                ) && r@[k].config == documents@[k],
        decreases n - i,
    {
        let template_type: TemplateType = if i < markers.len() {
            markers[i].duplicate()
        } else if i == 0 {
            TemplateType::Full
        } else if i == 1 {
            TemplateType::Simple
        } else {
            let mut name = "template_".to_owned();
            name.append(u64_to_string(i as u64).as_str());
            proof {
                assert(i as u64 as nat == i as nat);
            }
            TemplateType::Custom(name)
        };
        r.push(TemplateConfig { template_type, config: clone_document(&documents[i]) });
        i = i + 1;
    }
    r
}

/// Parses the comment-annotated template text: collects the variant
/// markers in file order, strips the comments, parses the cleaned text as
/// an array of documents, and zips documents with markers by position.
/// A text whose cleaned form is no valid document array is rejected with
/// an excerpt of the cleaned form; one parsing to zero documents is
/// rejected as holding no templates; every other text yields its
/// documents, tagged.
pub fn parse_jsonc_templates(content: &str) -> (r: Result<Vec<TemplateConfig>, ManagerError>)
    ensures
        match r {
            Ok(ts) => parsed_docs_of(strip_comments_spec(content@)) matches Some(ds)
                && ds.len() == ts@.len() && ts@.len() > 0 && forall|i: int|
                0 <= i < ts@.len() ==> (#[trigger] ts@[i]).template_type@ == assigned_tag(
                    markers_of(content@),
                    i,
                ) && ts@[i].config == ds[i],
            Err(e) => match e {
                ManagerError::NoTemplatesFound => parsed_docs_of(
                    strip_comments_spec(content@),
                ) matches Some(ds) && ds.len() == 0,
                ManagerError::TemplateParseError(d) => parsed_docs_of(
                    strip_comments_spec(content@),
                ) is None && d@ == strip_comments_spec(content@).take(
                    if strip_comments_spec(content@).len() < 300 {
                        strip_comments_spec(content@).len() as int
                    } else {
                        300
                    },
                ),
                _ => false,
            },
        },
{
    let markers = extract_markers(content);
    let cleaned = strip_comments(content);
    match parse_document_array(cleaned.as_str()) {
        Ok(documents) => {
            let templates = assign_template_types(&markers, documents);
            if templates.is_empty() {
                Err(ManagerError::NoTemplatesFound)
            } else {
                Ok(templates)
            }
        },
        Err(_) => {
            let n = cleaned.as_str().unicode_len();
            let cut = if n < 300 {
                n
            } else {
                300
            };
            let excerpt = cleaned.as_str().substring_char(0, cut).to_owned();
            proof {
                assert(excerpt@ =~= strip_comments_spec(content@).take(cut as int));
            }
            Err(ManagerError::TemplateParseError(excerpt))
        },
    }
}

/// The variant one monitor receives: a lone connected monitor always gets
/// the full layout; with several, the preferred monitor gets the full
/// layout and every other one the simple layout.
pub open spec fn spec_assignment_tag(
    connected: Seq<Seq<char>>,
    preferred: Seq<char>,
    m: Seq<char>,
) -> TemplateTag {
    if connected.len() == 1 {
        TemplateTag::Full
    } else if m == preferred {
        TemplateTag::Full
    } else {
        TemplateTag::Simple
    }
}

/// Whether some pair in `r` already names the monitor `m`.
fn assignment_has_monitor(r: &Vec<(String, TemplateType)>, m: &String) -> (b: bool)
    ensures
        b == exists|k: int| 0 <= k < r@.len() && (#[trigger] r@[k]).0@ == m@,
{
    let n = r.len();
    let mut i: usize = 0;
    while i < n
        invariant
            n == r@.len(),
            i <= n,
            forall|k: int| 0 <= k < i ==> (#[trigger] r@[k]).0@ != m@,
        decreases n - i,
    {
        if r[i].0.eq(m) {
            return true;
        }
        i = i + 1;
    }
    false
}

/// Maps each connected monitor to its template variant: one pair per
/// distinct connected monitor, keyed exactly by the connected set, each
/// variant as [`spec_assignment_tag`] assigns it.
pub fn determine_config_assignments(cfg: &Config, connected: &Vec<String>) -> (r: Vec<
    (String, TemplateType),
>)
    ensures
        forall|k: int|
            0 <= k < r@.len() ==> connected.deep_view().contains((#[trigger] r@[k]).0@)
                && r@[k].1@ == spec_assignment_tag(
                connected.deep_view(),
                cfg.display.preferred_monitor@,
                r@[k].0@,
            ),
        forall|p: int, q: int| 0 <= p < q < r@.len() ==> r@[p].0@ != r@[q].0@,
        forall|m: Seq<char>|
            connected.deep_view().contains(m) ==> exists|k: int|
                0 <= k < r@.len() && (#[trigger] r@[k]).0@ == m,
{
    let n = connected.len();
    let mut r: Vec<(String, TemplateType)> = Vec::new();
    if n == 1 {
        r.push((connected[0].clone(), TemplateType::Full));
        proof {
            assert(connected.deep_view().contains(connected.deep_view()[0]));
            assert forall|m: Seq<char>| connected.deep_view().contains(m) implies exists|k: int|
                0 <= k < r@.len() && (#[trigger] r@[k]).0@ == m by {
                let j = choose|j: int|
                    0 <= j < connected.deep_view().len() && connected.deep_view()[j] == m;
                assert(r@[0].0@ == m);
            }
        }
        return r;
    }
    let mut i: usize = 0;
    while i < n
        invariant
            n == connected.len(),
            n != 1,
            i <= n,
            forall|k: int|
                0 <= k < r@.len() ==> connected.deep_view().contains((#[trigger] r@[k]).0@)
                    && r@[k].1@ == spec_assignment_tag(
                    connected.deep_view(),
                    cfg.display.preferred_monitor@,
                    r@[k].0@,
                ),
            forall|p: int, q: int| 0 <= p < q < r@.len() ==> r@[p].0@ != r@[q].0@,
            forall|j: int| #![trigger connected.deep_view()[j]]
                0 <= j < i ==> exists|k: int|
                    0 <= k < r@.len() && (#[trigger] r@[k]).0@ == connected.deep_view()[j],
        decreases n - i,
    {
        let m = &connected[i];
        if !assignment_has_monitor(&r, m) {
            let tag = if m.eq(&cfg.display.preferred_monitor) {
                TemplateType::Full
            } else {
                TemplateType::Simple
            };
            let ghost old_r = r@;
            r.push((m.clone(), tag));
            proof {
                assert(connected.deep_view().contains(connected.deep_view()[i as int]));
                assert((r@[old_r.len() as int]).0@ == connected.deep_view()[i as int]);
                assert forall|j: int| #![trigger connected.deep_view()[j]] 0 <= j < i + 1
                    implies exists|k: int|
                    0 <= k < r@.len() && (#[trigger] r@[k]).0@ == connected.deep_view()[j] by {
                    if j < i {
                        let k0 = choose|k0: int|
                            0 <= k0 < old_r.len() && (#[trigger] old_r[k0]).0@
                                == connected.deep_view()[j];
                        assert((r@[k0]).0@ == connected.deep_view()[j]);
                    } else {
                        assert((r@[old_r.len() as int]).0@ == connected.deep_view()[j]);
                    }
                }
            }
        } else {
            proof {
                assert(exists|k: int|
                    0 <= k < r@.len() && (#[trigger] r@[k]).0@ == connected.deep_view()[
                        i as int
                    ]);
            }
        }
        i = i + 1;
    }
    proof {
        assert forall|m: Seq<char>| connected.deep_view().contains(m) implies exists|k: int|
            0 <= k < r@.len() && (#[trigger] r@[k]).0@ == m by {
            let j = choose|j: int|
                0 <= j < connected.deep_view().len() && connected.deep_view()[j] == m;
        }
    }
    r
}

/// One rendered per-monitor configuration: where it belongs on disk and
/// the document text to write there.
#[derive(Debug, Clone)]
pub struct GeneratedConfig {
    pub path: String,
    pub contents: String,
}

/// Whether some loaded template carries the variant `t`.
pub open spec fn has_template(templates: Seq<TemplateConfig>, t: TemplateTag) -> bool {
    exists|i: int| 0 <= i < templates.len() && (#[trigger] templates[i]).template_type@ == t
}

/// The position of the first loaded template carrying the variant `t`,
/// scanning from `i`; `templates.len()` if none does.
pub open spec fn template_index_from(
    templates: Seq<TemplateConfig>,
    t: TemplateTag,
    i: int,
) -> int
    decreases templates.len() - i when 0 <= i <= templates.len()
{
    if i >= templates.len() {
        templates.len() as int
    } else if templates[i].template_type@ == t {
        i
    } else {
        template_index_from(templates, t, i + 1)
    }
}

/// The position of the first loaded template carrying the variant `t`.
pub open spec fn template_index_of(templates: Seq<TemplateConfig>, t: TemplateTag) -> int {
    template_index_from(templates, t, 0)
}

/// A position `k` preceded only by other variants and itself carrying `t`
/// unless it is the end is exactly [`template_index_from`].
proof fn lemma_template_index_from_value(
    templates: Seq<TemplateConfig>,
    t: TemplateTag,
    i: int,
    k: int,
)
    requires
        0 <= i <= k <= templates.len(),
        forall|j: int| i <= j < k ==> (#[trigger] templates[j]).template_type@ != t,
        k < templates.len() ==> templates[k].template_type@ == t,
    ensures
        template_index_from(templates, t, i) == k,
    decreases k - i,
{
    if i < k {
        lemma_template_index_from_value(templates, t, i + 1, k);
    }
}

/// Looks up the first template carrying the variant of `t`.
fn find_template(templates: &Vec<TemplateConfig>, t: &TemplateType) -> (r: Option<usize>)
    ensures
        match r {
            Some(idx) => idx == template_index_of(templates@, t@) && idx < templates@.len()
                && templates@[idx as int].template_type@ == t@,
            None => !has_template(templates@, t@),
        },
{
    let n = templates.len();
    let mut i: usize = 0;
    while i < n
        invariant
            n == templates@.len(),
            i <= n,
            forall|k: int| 0 <= k < i ==> (#[trigger] templates@[k]).template_type@ != t@,
        decreases n - i,
    {
        if templates[i].template_type.eq(t) {
            proof {
                lemma_template_index_from_value(templates@, t@, 0, i as int);
            }
            return Some(i);
        }
        i = i + 1;
    }
    None
}

/// The text rendered for one assignment: the first loaded template
/// carrying the assigned variant, its document with the top-level
/// `output` key set to the monitor, pretty-printed. A function of
/// templates, monitor and variant alone: rendering the same inputs twice
/// gives byte-identical text.
pub open spec fn spec_rendered_contents(
    templates: Seq<TemplateConfig>,
    monitor: Seq<char>,
    t: TemplateTag,
) -> Seq<char> {
    doc_json_of(with_output_of(templates[template_index_of(templates, t)].config, monitor))
}

/// [`template_index_from`] sees only the variants and documents a
/// template list holds, not the list values themselves.
proof fn lemma_template_index_congruent(
    a: Seq<TemplateConfig>,
    b: Seq<TemplateConfig>,
    t: TemplateTag,
    i: int,
)
    requires
        0 <= i <= a.len(),
        a.len() == b.len(),
        forall|j: int|
            0 <= j < a.len() ==> (#[trigger] a[j]).template_type@ == b[j].template_type@,
    ensures
        template_index_from(a, t, i) == template_index_from(b, t, i),
    decreases a.len() - i,
{
    if i < a.len() && a[i].template_type@ != t {
        lemma_template_index_congruent(a, b, t, i + 1);
    }
}

/// Rendering is deterministic in what the templates hold: two template
/// lists carrying the same variants and documents render byte-identical
/// text for the same monitor and variant. Running generation twice with
/// the template file and monitors unchanged therefore writes the second
/// run's documents byte-identical to the first run's.
pub proof fn lemma_rendering_deterministic(
    a: Seq<TemplateConfig>,
    b: Seq<TemplateConfig>,
    monitor: Seq<char>,
    t: TemplateTag,
)
    requires
        a.len() == b.len(),
        forall|i: int|
            0 <= i < a.len() ==> (#[trigger] a[i]).template_type@ == b[i].template_type@
                && a[i].config == b[i].config,
        has_template(a, t),
    ensures
        spec_rendered_contents(a, monitor, t) == spec_rendered_contents(b, monitor, t),
{
    lemma_template_index_congruent(a, b, t, 0);
    let w = choose|w: int| 0 <= w < a.len() && (#[trigger] a[w]).template_type@ == t;
    lemma_template_index_from_value_bound(a, t, 0, w);
}

/// Where some position at or after `i` carries `t`, the scan lands at or
/// before it.
proof fn lemma_template_index_from_value_bound(
    templates: Seq<TemplateConfig>,
    t: TemplateTag,
    i: int,
    w: int,
)
    requires
        0 <= i <= w < templates.len(),
        templates[w].template_type@ == t,
    ensures
        i <= template_index_from(templates, t, i) <= w,
        templates[template_index_from(templates, t, i)].template_type@ == t,
    decreases w - i,
{
    if i < w && templates[i].template_type@ != t {
        lemma_template_index_from_value_bound(templates, t, i + 1, w);
    }
}

/// Renders one configuration document per assigned monitor: the monitor's
/// template document, copied, with its top-level `output` key set to the
/// monitor, serialized, and addressed at the per-(manager, monitor,
/// variant) path. Rendering succeeds exactly when every assigned variant
/// has a loaded template; the error names a missing, assigned variant.
pub fn generate_configs(
    templates: &Vec<TemplateConfig>,
    assignments: &Vec<(String, TemplateType)>,
    wm: &WindowManager,
    home: &str,
) -> (r: Result<Vec<GeneratedConfig>, ManagerError>)
    ensures
        (r is Ok) == (forall|k: int|
            0 <= k < assignments@.len() ==> has_template(
                templates@,
                (#[trigger] assignments@[k]).1@,
            )),
        match r {
            Ok(v) => v@.len() == assignments@.len() && forall|k: int|
                0 <= k < v@.len() ==> (#[trigger] v@[k]).path@ == spec_generated_config_path(
                    home@,
                    *wm,
                    assignments@[k].0@,
                    assignments@[k].1@,
                ) && v@[k].contents@ == spec_rendered_contents(
                    templates@,
                    assignments@[k].0@,
                    assignments@[k].1@,
                ),
            Err(e) => e matches ManagerError::TemplateVariantMissing(t) && !has_template(
                templates@,
                t@,
            ) && exists|k: int|
                0 <= k < assignments@.len() && (#[trigger] assignments@[k]).1@ == t@,
        },
{
    let n = assignments.len();
    let mut out: Vec<GeneratedConfig> = Vec::new();
    let mut i: usize = 0;
    while i < n
        invariant
            n == assignments@.len(),
            i <= n,
            out@.len() == i,
            forall|k: int|
                0 <= k < i ==> has_template(templates@, (#[trigger] assignments@[k]).1@),
            forall|k: int|
                0 <= k < i ==> (#[trigger] out@[k]).path@ == spec_generated_config_path(
                    home@,
                    *wm,
                    assignments@[k].0@,
                    assignments@[k].1@,
                ) && out@[k].contents@ == spec_rendered_contents(
                    templates@,
                    assignments@[k].0@,
                    assignments@[k].1@,
                ),
        decreases n - i,
    {
        let monitor = &assignments[i].0;
        let template_type = &assignments[i].1;
        match find_template(templates, template_type) {
            None => {
                return Err(ManagerError::TemplateVariantMissing(template_type.duplicate()));
            },
            Some(idx) => {
                let config = set_document_output(&templates[idx].config, monitor.as_str());
                match document_to_pretty_json(&config) {
                    Ok(contents) => {
                        let path = get_generated_config_path(
                            home,
                            wm,
                            monitor.as_str(),
                            template_type,
                        );
                        out.push(GeneratedConfig { path, contents });
                    },
                    Err(_) => vstd::pervasive::unreached(),
                }
            },
        }
        i = i + 1;
    }
    Ok(out)
}

} // verus!
