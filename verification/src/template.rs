//! Templates, overlays (`Shell`), binding resolution and rendering.
//!
//! A `Template` owns a token tree and three binding tables. A `Shell`
//! borrows a base binding source and overrides a subset of its bindings
//! without mutating it. Both implement `InnerTemplate`, the capability the
//! renderer resolves every lookup against.
//!
//! The binding tables are kept as association lists where a later entry for
//! a label wins; their mathematical view is the resolved `Map`/`Set` of the
//! model, so rebinding a label is `Map::insert` and a `Shell`'s explicit
//! unset is `Map::remove`.

use vstd::prelude::*;

use core::str::FromStr;

use crate::errors::RenderError;
use crate::parser::{ParseError, parse, spec_parse};
use crate::model::{SourceV, ValueV, source_wf, value_wf, render_from, render_out, spec_render};
use crate::text::{
    spec_udec,
    spec_idec,
    spec_bool_text,
    spec_char_text,
    push_udec,
    push_idec,
    push_bool,
    push_str_chars,
    str_eq,
    str_to_chars,
    chars_to_string,
};
use crate::token::{Token, TokenV, token_view, tokens_view, lemma_tokens_view};

verus! {

/// A named content generator: called during rendering with the argument
/// list that was parsed out of the template, it produces output text or
/// fails. Implementations are supplied by the library's users; nothing is
/// assumed about what they return.
pub trait Generator {
    fn generate(&self, args: &Vec<String>) -> Result<String, RenderError>;
}

/// A content value bound to a placeholder label: a scalar, a string, or a
/// whole nested template or overlay with bindings of its own.
pub enum ContentType<'c, G> {
    Int(i64),
    UnsignedInt(u64),
    Char(char),
    Bool(bool),
    Str(String),
    Template(Template<'c, G>),
    Shell(Shell<'c, Template<'c, G>, G>),
}

/// A parsed template: its token tree and three binding tables.
///
/// The tables are association lists; the entry pushed last for a label is
/// the one in force.
pub struct Template<'c, G> {
    /// Content bindings for placeholders.
    pub content: Vec<(String, ContentType<'c, G>)>,
    /// Named content generators.
    pub generators: Vec<(String, G)>,
    /// Condition switches; a label not listed is false.
    pub conditions: Vec<(String, bool)>,
    /// The token tree produced by parsing.
    pub tokens: Vec<Token>,
}

/// An overlay on a base binding source. It borrows the base read-only and
/// holds tri-state overrides: an entry `Some(v)` shadows the base's
/// binding, an entry `None` hides it, and a label with no entry delegates
/// to the base.
pub struct Shell<'r, B, G> {
    /// Content overrides: set or explicitly unset.
    pub content: Vec<(String, Option<ContentType<'r, G>>)>,
    /// Generator overrides: set or explicitly unset.
    pub generators: Vec<(String, Option<G>)>,
    /// Condition overrides.
    pub conditions: Vec<(String, bool)>,
    /// The wrapped binding source.
    pub base: &'r B,
}

/// The entry in force for `l` in an association list: the last one whose
/// label is `l`.
pub open spec fn assoc_find<V>(s: Seq<(String, V)>, l: Seq<char>) -> Option<V>
    decreases s.len(),
{
    if s.len() == 0 {
        None
    } else if s.last().0@ == l {
        Some(s.last().1)
    } else {
        assoc_find(s.drop_last(), l)
    }
}

/// The condition set described by a condition table: the labels whose
/// entry in force is true.
pub open spec fn conds_set(s: Seq<(String, bool)>) -> Set<Seq<char>> {
    Set::new(|l: Seq<char>| assoc_find(s, l) == Some(true))
}

/// The generator-label set described by a generator table.
pub open spec fn gens_set<G>(s: Seq<(String, G)>) -> Set<Seq<char>> {
    Set::new(|l: Seq<char>| assoc_find(s, l) is Some)
}

/// A condition set overridden by a condition table.
pub open spec fn merge_conds(own: Seq<(String, bool)>, base: Set<Seq<char>>) -> Set<Seq<char>> {
    Set::new(
        |l: Seq<char>|
            match assoc_find(own, l) {
                Some(b) => b,
                None => base.contains(l),
            },
    )
}

/// A generator-label set overridden by a tri-state generator table.
pub open spec fn merge_gens<G>(own: Seq<(String, Option<G>)>, base: Set<Seq<char>>) -> Set<
    Seq<char>,
> {
    Set::new(
        |l: Seq<char>|
            match assoc_find(own, l) {
                Some(o) => o is Some,
                None => base.contains(l),
            },
    )
}

/// The generator map described by a generator table: which generator a
/// lookup returns, by label.
pub open spec fn gens_map<G>(s: Seq<(String, G)>) -> Map<Seq<char>, G>
    decreases s.len(),
{
    if s.len() == 0 {
        Map::empty()
    } else {
        gens_map(s.drop_last()).insert(s.last().0@, s.last().1)
    }
}

/// A generator map overridden by a tri-state generator table.
pub open spec fn merge_gens_map<G>(own: Seq<(String, Option<G>)>, base: Map<Seq<char>, G>) -> Map<
    Seq<char>,
    G,
>
    decreases own.len(),
{
    if own.len() == 0 {
        base
    } else {
        let m = merge_gens_map(own.drop_last(), base);
        match own.last().1 {
            Some(g) => m.insert(own.last().0@, g),
            None => m.remove(own.last().0@),
        }
    }
}

/// Looking a label up in the generator map is finding its entry in force.
proof fn lemma_gens_map_find<G>(s: Seq<(String, G)>, l: Seq<char>)
    ensures
        match assoc_find(s, l) {
            Some(g) => gens_map(s).dom().contains(l) && gens_map(s)[l] == g,
            None => !gens_map(s).dom().contains(l),
        },
    decreases s.len(),
{
    if s.len() > 0 && s.last().0@ != l {
        lemma_gens_map_find(s.drop_last(), l);
    }
}

/// Looking a label up in an overridden generator map: a set override
/// wins, an unset override hides the base, no override delegates.
proof fn lemma_merge_gens_map_find<G>(own: Seq<(String, Option<G>)>, base: Map<Seq<char>, G>, l: Seq<char>)
    ensures
        match assoc_find(own, l) {
            Some(Some(g)) => merge_gens_map(own, base).dom().contains(l) && merge_gens_map(
                own,
                base,
            )[l] == g,
            Some(None) => !merge_gens_map(own, base).dom().contains(l),
            None => merge_gens_map(own, base).dom().contains(l) == base.dom().contains(l) && (
            base.dom().contains(l) ==> merge_gens_map(own, base)[l] == base[l]),
        },
    decreases own.len(),
{
    if own.len() > 0 && own.last().0@ != l {
        lemma_merge_gens_map_find(own.drop_last(), base, l);
    }
}

/// The model of one content value.
pub open spec fn value_view<'c, G>(c: ContentType<'c, G>) -> ValueV
    decreases c,
{
    match c {
        ContentType::Int(i) => ValueV::Text(spec_idec(i as int)),
        ContentType::UnsignedInt(u) => ValueV::Text(spec_udec(u as nat)),
        ContentType::Char(ch) => ValueV::Text(spec_char_text(ch)),
        ContentType::Bool(b) => ValueV::Text(spec_bool_text(b)),
        ContentType::Str(s) => ValueV::Text(s@),
        ContentType::Template(t) => ValueV::Tree(template_view(t)),
        ContentType::Shell(sh) => ValueV::Tree(nested_shell_view(sh)),
    }
}

/// Wraps a character as content, with its view pinned down.
fn char_content<'c, G>(c: char) -> (r: ContentType<'c, G>)
    ensures
        value_view(r) == ValueV::Text(spec_char_text(c)),
{
    ContentType::Char(c)
}

/// The content map described by a content table.
pub open spec fn content_map<'c, G>(s: Seq<(String, ContentType<'c, G>)>) -> Map<
    Seq<char>,
    ValueV,
>
    decreases s,
{
    if s.len() == 0 {
        Map::empty()
    } else {
        content_map(s.drop_last()).insert(s.last().0@, value_view(s.last().1))
    }
}

/// A content map overridden by a tri-state content table.
pub open spec fn merge_content<'c, G>(
    own: Seq<(String, Option<ContentType<'c, G>>)>,
    base: Map<Seq<char>, ValueV>,
) -> Map<Seq<char>, ValueV>
    decreases own,
{
    if own.len() == 0 {
        base
    } else {
        let m = merge_content(own.drop_last(), base);
        match own.last().1 {
            Some(c) => m.insert(own.last().0@, value_view(c)),
            None => m.remove(own.last().0@),
        }
    }
}

/// The model of a template: its own tokens, resolved against its own
/// tables.
pub open spec fn template_view<'c, G>(t: Template<'c, G>) -> SourceV
    decreases t,
{
    SourceV {
        tokens: tokens_view(t.tokens@),
        content: content_map(t.content@),
        conds: conds_set(t.conditions@),
        gens: gens_set(t.generators@),
    }
}

/// The model of a shell stored as a content value (its base is then always
/// a template): the base's tokens, with the base's bindings overridden by
/// the shell's tables.
pub open spec fn nested_shell_view<'c, G>(sh: Shell<'c, Template<'c, G>, G>) -> SourceV
    decreases sh,
{
    let b = template_view(*sh.base);
    SourceV {
        tokens: b.tokens,
        content: merge_content(sh.content@, b.content),
        conds: merge_conds(sh.conditions@, b.conds),
        gens: merge_gens(sh.generators@, b.gens),
    }
}

/// The content map described by a table is finite and holds well-formed
/// values.
proof fn lemma_content_map_wf<'c, G>(s: Seq<(String, ContentType<'c, G>)>)
    ensures
        content_map(s).dom().finite(),
        forall|l: Seq<char>|
            content_map(s).dom().contains(l) ==> value_wf(#[trigger] content_map(s)[l]),
    decreases s,
{
    if s.len() > 0 {
        lemma_content_map_wf(s.drop_last());
        lemma_value_view_wf(s.last().1);
    }
}

/// The view of a content value is well-formed.
proof fn lemma_value_view_wf<'c, G>(c: ContentType<'c, G>)
    ensures
        value_wf(value_view(c)),
    decreases c,
{
    match c {
        ContentType::Template(t) => lemma_template_view_wf(t),
        ContentType::Shell(sh) => lemma_nested_shell_view_wf(sh),
        _ => (),
    }
}

/// The view of a template is well-formed.
pub proof fn lemma_template_view_wf<'c, G>(t: Template<'c, G>)
    ensures
        source_wf(template_view(t)),
    decreases t,
{
    lemma_content_map_wf(t.content@);
}

/// The view of a nested shell is well-formed.
pub proof fn lemma_nested_shell_view_wf<'c, G>(sh: Shell<'c, Template<'c, G>, G>)
    ensures
        source_wf(nested_shell_view(sh)),
    decreases sh,
{
    lemma_template_view_wf(*sh.base);
    lemma_merge_content_wf(sh.content@, template_view(*sh.base).content);
}

/// Overriding a finite, well-formed content map gives a finite,
/// well-formed content map.
pub proof fn lemma_merge_content_wf<'c, G>(
    own: Seq<(String, Option<ContentType<'c, G>>)>,
    base: Map<Seq<char>, ValueV>,
)
    requires
        base.dom().finite(),
        forall|l: Seq<char>| base.dom().contains(l) ==> value_wf(#[trigger] base[l]),
    ensures
        merge_content(own, base).dom().finite(),
        forall|l: Seq<char>|
            merge_content(own, base).dom().contains(l) ==> value_wf(
                #[trigger] merge_content(own, base)[l],
            ),
    decreases own,
{
    if own.len() > 0 {
        lemma_merge_content_wf(own.drop_last(), base);
        match own.last().1 {
            Some(c) => lemma_value_view_wf(c),
            None => (),
        }
    }
}

/// Looking a label up in the content map is finding its entry in force.
proof fn lemma_content_map_find<'c, G>(s: Seq<(String, ContentType<'c, G>)>, l: Seq<char>)
    ensures
        match assoc_find(s, l) {
            Some(c) => content_map(s).dom().contains(l) && content_map(s)[l] == value_view(c),
            None => !content_map(s).dom().contains(l),
        },
    decreases s.len(),
{
    if s.len() > 0 && s.last().0@ != l {
        lemma_content_map_find(s.drop_last(), l);
    }
}

/// Looking a label up in an overridden content map: a set override wins, an
/// unset override hides the base, no override delegates.
proof fn lemma_merge_content_find<'c, G>(
    own: Seq<(String, Option<ContentType<'c, G>>)>,
    base: Map<Seq<char>, ValueV>,
    l: Seq<char>,
)
    ensures
        match assoc_find(own, l) {
            Some(Some(c)) => merge_content(own, base).dom().contains(l) && merge_content(
                own,
                base,
            )[l] == value_view(c),
            Some(None) => !merge_content(own, base).dom().contains(l),
            None => merge_content(own, base).dom().contains(l) == base.dom().contains(l) && (
            base.dom().contains(l) ==> merge_content(own, base)[l] == base[l]),
        },
    decreases own.len(),
{
    if own.len() > 0 && own.last().0@ != l {
        lemma_merge_content_find(own.drop_last(), base, l);
    }
}

/// The capability surface the renderer resolves lookups against: shared by
/// `Template` and `Shell`.
pub trait InnerTemplate<'c, G: Generator> {
    /// The resolved model of this binding source.
    spec fn source_view(&self) -> SourceV;

    /// The resolved model is well-formed.
    proof fn lemma_source_wf(&self)
        ensures
            source_wf(self.source_view()),
    ;

    /// The content value bound to `label`, if any.
    fn get_content<'a>(&'a self, label: &str) -> (r: Option<&'a ContentType<'c, G>>)
        ensures
            match r {
                Some(c) => self.source_view().content.dom().contains(label@) && value_view(*c)
                    == self.source_view().content[label@],
                None => !self.source_view().content.dom().contains(label@),
            },
    ;

    /// The condition named `label`; false when unbound.
    fn get_condition(&self, label: &str) -> (r: bool)
        ensures
            r == self.source_view().conds.contains(label@),
    ;

    /// Whether `label` has a content binding.
    fn is_content_defined(&self, label: &str) -> (r: bool)
        ensures
            r == self.source_view().content.dom().contains(label@),
    ;

    /// The generators bound, by label: which generator a lookup returns.
    spec fn gen_view(&self) -> Map<Seq<char>, G>;

    /// The model's generator-label set is this map's domain.
    proof fn lemma_gens_dom(&self)
        ensures
            self.source_view().gens == self.gen_view().dom(),
    ;

    /// The generator bound to `label`, if any: the one the generator map
    /// holds for it.
    fn get_generator<'a>(&'a self, label: &str) -> (r: Option<&'a G>)
        ensures
            r is Some <==> self.source_view().gens.contains(label@),
            match r {
                Some(g) => self.gen_view().dom().contains(label@) && *g == self.gen_view()[label@],
                None => !self.gen_view().dom().contains(label@),
            },
    ;

    /// The token tree this source renders: a shell renders its base's
    /// tree, so a whole wrapping chain shares one tree.
    fn own_tokens<'a>(&'a self) -> (r: &'a Vec<Token>)
        ensures
            tokens_view(r@) == self.source_view().tokens,
    ;
}

/// The entry in force for `label`, by a backward scan: the entry pushed
/// last wins.
fn assoc_get<'a, V>(entries: &'a Vec<(String, V)>, label: &str) -> (r: Option<&'a V>)
    ensures
        match r {
            Some(v) => assoc_find(entries@, label@) == Some(*v),
            None => assoc_find(entries@, label@) is None,
        },
{
    let ghost s = entries@;
    let mut i: usize = entries.len();
    proof {
        assert(s.take(entries.len() as int) =~= s);
    }
    while i > 0
        invariant
            i <= entries.len(),
            s == entries@,
            assoc_find(s, label@) == assoc_find(s.take(i as int), label@),
        decreases i,
    {
        i = i - 1;
        let e = &entries[i];
        if str_eq(e.0.as_str(), label) {
            return Some(&e.1);
        }
        proof {
            assert(s.take(i as int + 1).drop_last() =~= s.take(i as int));
        }
    }
    None
}

impl<'c, G: Generator> InnerTemplate<'c, G> for Template<'c, G> {
    open spec fn source_view(&self) -> SourceV {
        template_view(*self)
    }

    proof fn lemma_source_wf(&self) {
        lemma_template_view_wf(*self);
    }

    fn get_content<'a>(&'a self, label: &str) -> (r: Option<&'a ContentType<'c, G>>) {
        proof {
            lemma_content_map_find(self.content@, label@);
        }
        assoc_get(&self.content, label)
    }

    fn get_condition(&self, label: &str) -> (r: bool) {
        match assoc_get(&self.conditions, label) {
            Some(b) => *b,
            None => false,
        }
    }

    fn is_content_defined(&self, label: &str) -> (r: bool) {
        proof {
            lemma_content_map_find(self.content@, label@);
        }
        match assoc_get(&self.content, label) {
            Some(_) => true,
            None => false,
        }
    }

    open spec fn gen_view(&self) -> Map<Seq<char>, G> {
        gens_map(self.generators@)
    }

    proof fn lemma_gens_dom(&self) {
        assert forall|l: Seq<char>|
            self.source_view().gens.contains(l) == self.gen_view().dom().contains(l) by {
            lemma_gens_map_find(self.generators@, l);
        }
        assert(self.source_view().gens =~= self.gen_view().dom());
    }

    fn get_generator<'a>(&'a self, label: &str) -> (r: Option<&'a G>) {
        proof {
            lemma_gens_map_find(self.generators@, label@);
        }
        assoc_get(&self.generators, label)
    }

    fn own_tokens<'a>(&'a self) -> (r: &'a Vec<Token>) {
        &self.tokens
    }
}

impl<'r, 'c: 'r, G: Generator + 'c, B: InnerTemplate<'c, G>> InnerTemplate<'r, G> for Shell<
    'r,
    B,
    G,
> {
    open spec fn source_view(&self) -> SourceV {
        let b = self.base.source_view();
        SourceV {
            tokens: b.tokens,
            content: merge_content(self.content@, b.content),
            conds: merge_conds(self.conditions@, b.conds),
            gens: merge_gens(self.generators@, b.gens),
        }
    }

    proof fn lemma_source_wf(&self) {
        self.base.lemma_source_wf();
        lemma_merge_content_wf(self.content@, self.base.source_view().content);
    }

    fn get_content<'a>(&'a self, label: &str) -> (r: Option<&'a ContentType<'r, G>>) {
        proof {
            lemma_merge_content_find(self.content@, self.base.source_view().content, label@);
        }
        match assoc_get(&self.content, label) {
            Some(o) => match o {
                Some(c) => Some(c),
                None => None,
            },
            None => self.base.get_content(label),
        }
    }

    fn get_condition(&self, label: &str) -> (r: bool) {
        match assoc_get(&self.conditions, label) {
            Some(b) => *b,
            None => self.base.get_condition(label),
        }
    }

    fn is_content_defined(&self, label: &str) -> (r: bool) {
        proof {
            lemma_merge_content_find(self.content@, self.base.source_view().content, label@);
        }
        match assoc_get(&self.content, label) {
            Some(o) => match o {
                Some(_) => true,
                None => false,
            },
            None => self.base.is_content_defined(label),
        }
    }

    open spec fn gen_view(&self) -> Map<Seq<char>, G> {
        merge_gens_map(self.generators@, self.base.gen_view())
    }

    proof fn lemma_gens_dom(&self) {
        self.base.lemma_gens_dom();
        assert forall|l: Seq<char>|
            self.source_view().gens.contains(l) == self.gen_view().dom().contains(l) by {
            lemma_merge_gens_map_find(self.generators@, self.base.gen_view(), l);
        }
        assert(self.source_view().gens =~= self.gen_view().dom());
    }

    fn get_generator<'a>(&'a self, label: &str) -> (r: Option<&'a G>) {
        proof {
            self.base.lemma_gens_dom();
            lemma_merge_gens_map_find(self.generators@, self.base.gen_view(), label@);
        }
        match assoc_get(&self.generators, label) {
            Some(o) => match o {
                Some(g) => Some(g),
                None => None,
            },
            None => self.base.get_generator(label),
        }
    }

    fn own_tokens<'a>(&'a self) -> (r: &'a Vec<Token>) {
        self.base.own_tokens()
    }
}

impl<'c, G: Generator> Template<'c, G> {
    /// Parses a character sequence into a template with no bindings yet.
    /// The error carries the unknown construct marker that made the parse
    /// fail; parsing is all or nothing.
    pub fn from_chars(chars: &Vec<char>) -> (r: Result<Template<'c, G>, ParseError>)
        ensures
            match spec_parse(chars@) {
                Ok(ts) => r matches Ok(t) && t.source_view() == (SourceV {
                    tokens: ts,
                    content: Map::empty(),
                    conds: Set::empty(),
                    gens: Set::empty(),
                }),
                Err(e) => r matches Err(pe) && pe.marker == e,
            },
    {
        match parse(chars) {
            Ok(tokens) => {
                let t = Template {
                    content: Vec::new(),
                    generators: Vec::new(),
                    conditions: Vec::new(),
                    tokens,
                };
                proof {
                    assert(conds_set(t.conditions@) =~= Set::<Seq<char>>::empty());
                    assert(gens_set(t.generators@) =~= Set::<Seq<char>>::empty());
                }
                Ok(t)
            },
            Err(e) => Err(e),
        }
    }

    /// Renders this template against its own bindings. Succeeds with
    /// exactly the modelled output whenever the model pins it down; a
    /// generator's failure is surfaced as the error. Every success is the
    /// `render_out` of one text per bound-generator call, in call order:
    /// the output around the generator segments is pinned down, and each
    /// call contributes exactly one segment at its token's place.
    pub fn render(&self) -> (r: Result<String, RenderError>)
        ensures
            spec_render(self.source_view()) matches Some(full) ==> r matches Ok(s) && s@ == full,
            r matches Ok(s) ==> exists|gouts: Seq<Seq<char>>|
                s@ == (#[trigger] render_out(
                    self.source_view().tokens,
                    0,
                    self.source_view(),
                    gouts,
                )).0 && render_out(self.source_view().tokens, 0, self.source_view(), gouts).1
                    == gouts.len(),
    {
        let mut out: Vec<char> = Vec::new();
        let (res, gouts) = render_tokens(self, &self.tokens, &mut out, Ghost(self.source_view()));
        match res {
            Ok(()) => {
                proof {
                    let tv = self.source_view();
                    let v = tokens_view(self.tokens@);
                    assert(gouts@ + Seq::<Seq<char>>::empty() =~= gouts@);
                    assert(Seq::<char>::empty() + render_out(v, 0, tv, gouts@).0 =~= render_out(
                        v,
                        0,
                        tv,
                        gouts@,
                    ).0);
                }
                Ok(chars_to_string(&out))
            },
            Err(e) => Err(e),
        }
    }

    /// The rendered text. Whenever the model pins the output down this is
    /// that output. If a generator fails, the text written before the
    /// failure is returned; only the determined case is pinned by the
    /// contract, `render` also pins every successful outcome.
    pub fn to_string(&self) -> (r: String)
        ensures
            spec_render(self.source_view()) matches Some(full) ==> r@ == full,
    {
        let mut out: Vec<char> = Vec::new();
        let _ = render_tokens(self, &self.tokens, &mut out, Ghost(self.source_view()));
        chars_to_string(&out)
    }

    /// Binds `label` to a content value, overwriting any earlier binding.
    pub fn insert<T: TemplateContent<'c, G>>(&mut self, label: String, item: T)
        ensures
            final(self).source_view() == (SourceV {
                content: old(self).source_view().content.insert(label@, item.content_view()),
                ..old(self).source_view()
            }),
    {
        let ghost pre = self.content@;
        let c = item.into_template_content();
        proof {
            let post = pre.push((label, c));
            assert(post.drop_last() =~= pre);
        }
        self.content.push((label, c));
    }

    /// Binds `label` to a content generator, overwriting any earlier one:
    /// that generator is then the one lookups return.
    pub fn insert_generator(&mut self, label: String, gen: G)
        ensures
            final(self).source_view() == (SourceV {
                gens: old(self).source_view().gens.insert(label@),
                ..old(self).source_view()
            }),
            final(self).gen_view() == old(self).gen_view().insert(label@, gen),
    {
        let ghost pre = self.generators@;
        self.generators.push((label, gen));
        proof {
            assert(self.generators@.drop_last() =~= pre);
            assert(gens_set(self.generators@) =~= gens_set(pre).insert(label@));
        }
    }

    /// Turns the condition named `label` on or off.
    pub fn set(&mut self, label: String, value: bool)
        ensures
            final(self).source_view() == (SourceV {
                conds: if value {
                    old(self).source_view().conds.insert(label@)
                } else {
                    old(self).source_view().conds.remove(label@)
                },
                ..old(self).source_view()
            }),
    {
        let ghost pre = self.conditions@;
        self.conditions.push((label, value));
        proof {
            assert(self.conditions@.drop_last() =~= pre);
            if value {
                assert(conds_set(self.conditions@) =~= conds_set(pre).insert(label@));
            } else {
                assert(conds_set(self.conditions@) =~= conds_set(pre).remove(label@));
            }
        }
    }

    /// Wraps this template in a fresh `Shell` that borrows it and starts
    /// with no overrides, so it resolves exactly as the template does.
    pub fn wrap<'a>(&'a self) -> (r: Shell<'a, Template<'c, G>, G>)
        ensures
            r.base == self,
            r.source_view() == self.source_view(),
            r.gen_view() == self.gen_view(),
    {
        Shell::new(self)
    }

    /// The token tree this template renders.
    pub fn get_tokens(&self) -> (r: &Vec<Token>)
        ensures
            tokens_view(r@) == self.source_view().tokens,
    {
        &self.tokens
    }
}

impl<'r, 'c: 'r, G: Generator + 'c, B: InnerTemplate<'c, G>> Shell<'r, B, G> {
    /// A fresh overlay around `base`, with no overrides of its own: it
    /// resolves exactly as `base` does.
    pub fn new(base: &'r B) -> (r: Shell<'r, B, G>)
        ensures
            r.base == base,
            r.source_view() == base.source_view(),
            r.gen_view() == base.gen_view(),
    {
        let r = Shell { content: Vec::new(), generators: Vec::new(), conditions: Vec::new(), base };
        proof {
            assert(merge_conds(r.conditions@, base.source_view().conds) =~= base.source_view()
                .conds);
            assert(merge_gens(r.generators@, base.source_view().gens) =~= base.source_view().gens);
        }
        r
    }

    /// Overrides `label` with a content value of this shell's own; the
    /// base keeps its binding untouched.
    pub fn insert<T: TemplateContent<'r, G>>(&mut self, label: String, item: T)
        ensures
            final(self).base == old(self).base,
            final(self).source_view() == (SourceV {
                content: old(self).source_view().content.insert(label@, item.content_view()),
                ..old(self).source_view()
            }),
    {
        let ghost pre = self.content@;
        let c = item.into_template_content();
        proof {
            let post = pre.push((label, Some(c)));
            assert(post.drop_last() =~= pre);
        }
        self.content.push((label, Some(c)));
    }

    /// Hides any content the base binds to `label`: the label then renders
    /// as unbound, whatever the base holds.
    pub fn unset(&mut self, label: String)
        ensures
            final(self).base == old(self).base,
            final(self).source_view() == (SourceV {
                content: old(self).source_view().content.remove(label@),
                ..old(self).source_view()
            }),
    {
        let ghost pre = self.content@;
        self.content.push((label, None));
        proof {
            assert(self.content@.drop_last() =~= pre);
        }
    }

    /// Overrides `label` with a generator of this shell's own: that
    /// generator is then the one lookups return, whatever the base binds.
    pub fn insert_generator(&mut self, label: String, gen: G)
        ensures
            final(self).base == old(self).base,
            final(self).source_view() == (SourceV {
                gens: old(self).source_view().gens.insert(label@),
                ..old(self).source_view()
            }),
            final(self).gen_view() == old(self).gen_view().insert(label@, gen),
    {
        let ghost pre = self.generators@;
        self.generators.push((label, Some(gen)));
        proof {
            assert(self.generators@.drop_last() =~= pre);
            let b = self.base.source_view().gens;
            assert(merge_gens(self.generators@, b) =~= merge_gens(pre, b).insert(label@));
        }
    }

    /// Hides any generator the base binds to `label`.
    pub fn unset_generator(&mut self, label: String)
        ensures
            final(self).base == old(self).base,
            final(self).source_view() == (SourceV {
                gens: old(self).source_view().gens.remove(label@),
                ..old(self).source_view()
            }),
            final(self).gen_view() == old(self).gen_view().remove(label@),
    {
        let ghost pre = self.generators@;
        self.generators.push((label, None));
        proof {
            assert(self.generators@.drop_last() =~= pre);
            let b = self.base.source_view().gens;
            assert(merge_gens(self.generators@, b) =~= merge_gens(pre, b).remove(label@));
        }
    }

    /// Overrides the condition named `label`, whatever the base says.
    pub fn set(&mut self, label: String, value: bool)
        ensures
            final(self).base == old(self).base,
            final(self).source_view() == (SourceV {
                conds: if value {
                    old(self).source_view().conds.insert(label@)
                } else {
                    old(self).source_view().conds.remove(label@)
                },
                ..old(self).source_view()
            }),
    {
        let ghost pre = self.conditions@;
        self.conditions.push((label, value));
        proof {
            assert(self.conditions@.drop_last() =~= pre);
            let b = self.base.source_view().conds;
            if value {
                assert(merge_conds(self.conditions@, b) =~= merge_conds(pre, b).insert(label@));
            } else {
                assert(merge_conds(self.conditions@, b) =~= merge_conds(pre, b).remove(label@));
            }
        }
    }

    /// Renders the shared token tree with this shell as the outermost
    /// overlay: every lookup anywhere in the tree goes through this
    /// shell's overrides first. Every success is the `render_out` of one
    /// text per bound-generator call, in call order.
    pub fn render(&self) -> (r: Result<String, RenderError>)
        ensures
            spec_render(self.source_view()) matches Some(full) ==> r matches Ok(s) && s@ == full,
            r matches Ok(s) ==> exists|gouts: Seq<Seq<char>>|
                s@ == (#[trigger] render_out(
                    self.source_view().tokens,
                    0,
                    self.source_view(),
                    gouts,
                )).0 && render_out(self.source_view().tokens, 0, self.source_view(), gouts).1
                    == gouts.len(),
    {
        let mut out: Vec<char> = Vec::new();
        let toks = self.base.own_tokens();
        let (res, gouts) = render_tokens(self, toks, &mut out, Ghost(self.source_view()));
        match res {
            Ok(()) => {
                proof {
                    let tv = self.source_view();
                    let v = tokens_view(toks@);
                    assert(gouts@ + Seq::<Seq<char>>::empty() =~= gouts@);
                    assert(Seq::<char>::empty() + render_out(v, 0, tv, gouts@).0 =~= render_out(
                        v,
                        0,
                        tv,
                        gouts@,
                    ).0);
                }
                Ok(chars_to_string(&out))
            },
            Err(e) => Err(e),
        }
    }

    /// The rendered text. Whenever the model pins the output down this is
    /// that output. If a generator fails, the text written before the
    /// failure is returned; only the determined case is pinned by the
    /// contract, `render` also pins every successful outcome.
    pub fn to_string(&self) -> (r: String)
        ensures
            spec_render(self.source_view()) matches Some(full) ==> r@ == full,
    {
        let mut out: Vec<char> = Vec::new();
        let toks = self.base.own_tokens();
        let _ = render_tokens(self, toks, &mut out, Ghost(self.source_view()));
        chars_to_string(&out)
    }

    /// Wraps this shell in a further `Shell`; overrides stack, and the
    /// underlying token tree stays shared.
    pub fn wrap<'a>(&'a self) -> (r: Shell<'a, Shell<'r, B, G>, G>)
        ensures
            r.base == self,
            r.source_view() == self.source_view(),
            r.gen_view() == self.gen_view(),
    {
        Shell::new(self)
    }
}

/// Renders one content value into `out`. Scalar and string content always
/// renders; a nested template or shell renders its own token tree against
/// itself, and is exact whenever the model pins that output down.
/// One walk step that touches no generator and appends fixed text
/// `delta` carries the oracle invariant from position `k` to `k + 1`.
proof fn lemma_step_flat(
    v: Seq<TokenV>,
    k: int,
    topv: SourceV,
    out0: Seq<char>,
    old0: Seq<char>,
    gacc: Seq<Seq<char>>,
    delta: Seq<char>,
)
    requires
        source_wf(topv),
        0 <= k < v.len(),
        match v[k] {
            TokenV::Literal(t) => delta == t,
            TokenV::Placeholder(l) => (topv.content.dom().contains(l) && topv.content[l]
                == ValueV::Text(delta)) || (!topv.content.dom().contains(l) && delta
                == Seq::<char>::empty()),
            TokenV::Conditional(l, e, _body) => topv.conds.contains(l) != e && delta
                == Seq::<char>::empty(),
            TokenV::ContentConditional(l, e, _body) => topv.content.dom().contains(l) != e
                && delta == Seq::<char>::empty(),
            TokenV::Generated(l, _args) => !topv.gens.contains(l) && delta
                == Seq::<char>::empty(),
        },
        forall|g: Seq<Seq<char>>|
            out0 + (#[trigger] render_out(v, k, topv, g)).0 == old0 + render_out(
                v,
                0,
                topv,
                gacc + g,
            ).0 && render_out(v, 0, topv, gacc + g).1 == gacc.len() + render_out(v, k, topv, g).1,
    ensures
        forall|g2: Seq<Seq<char>>|
            (out0 + delta) + (#[trigger] render_out(v, k + 1, topv, g2)).0 == old0 + render_out(
                v,
                0,
                topv,
                gacc + g2,
            ).0 && render_out(v, 0, topv, gacc + g2).1 == gacc.len() + render_out(
                v,
                k + 1,
                topv,
                g2,
            ).1,
{
    assert forall|g2: Seq<Seq<char>>|
        (out0 + delta) + (#[trigger] render_out(v, k + 1, topv, g2)).0 == old0 + render_out(
            v,
            0,
            topv,
            gacc + g2,
        ).0 && render_out(v, 0, topv, gacc + g2).1 == gacc.len() + render_out(
            v,
            k + 1,
            topv,
            g2,
        ).1 by {
        assert(g2.skip(0) =~= g2);
        assert(render_out(v, k, topv, g2).0 == delta + render_out(v, k + 1, topv, g2).0);
        assert(render_out(v, k, topv, g2).1 == render_out(v, k + 1, topv, g2).1);
        assert((out0 + delta) + render_out(v, k + 1, topv, g2).0 =~= out0 + (delta + render_out(
            v,
            k + 1,
            topv,
            g2,
        ).0));
    }
}

/// One walk step whose head is a nested block (a taken conditional)
/// carries the oracle invariant from position `k` to `k + 1`, extending
/// the gathered outputs by the nested walk's.
proof fn lemma_step_nested(
    v: Seq<TokenV>,
    k: int,
    topv: SourceV,
    out0: Seq<char>,
    old0: Seq<char>,
    gacc: Seq<Seq<char>>,
    bodyv: Seq<TokenV>,
    gn: Seq<Seq<char>>,
    outn: Seq<char>,
)
    requires
        source_wf(topv),
        0 <= k < v.len(),
        match v[k] {
            TokenV::Conditional(l, e, body) => body == bodyv && topv.conds.contains(l) == e,
            TokenV::ContentConditional(l, e, body) => body == bodyv && topv.content.dom().contains(
                l,
            ) == e,
            _ => false,
        },
        forall|g: Seq<Seq<char>>|
            out0 + (#[trigger] render_out(v, k, topv, g)).0 == old0 + render_out(
                v,
                0,
                topv,
                gacc + g,
            ).0 && render_out(v, 0, topv, gacc + g).1 == gacc.len() + render_out(v, k, topv, g).1,
        forall|h2: Seq<Seq<char>>|
            outn == out0 + (#[trigger] render_out(bodyv, 0, topv, gn + h2)).0 && render_out(
                bodyv,
                0,
                topv,
                gn + h2,
            ).1 == gn.len(),
    ensures
        forall|g2: Seq<Seq<char>>|
            outn + (#[trigger] render_out(v, k + 1, topv, g2)).0 == old0 + render_out(
                v,
                0,
                topv,
                (gacc + gn) + g2,
            ).0 && render_out(v, 0, topv, (gacc + gn) + g2).1 == (gacc + gn).len() + render_out(
                v,
                k + 1,
                topv,
                g2,
            ).1,
{
    assert forall|g2: Seq<Seq<char>>|
        outn + (#[trigger] render_out(v, k + 1, topv, g2)).0 == old0 + render_out(
            v,
            0,
            topv,
            (gacc + gn) + g2,
        ).0 && render_out(v, 0, topv, (gacc + gn) + g2).1 == (gacc + gn).len() + render_out(
            v,
            k + 1,
            topv,
            g2,
        ).1 by {
        let gbig = gn + g2;
        assert(gacc + gbig =~= (gacc + gn) + g2);
        assert(gbig.skip(gn.len() as int) =~= g2);
        assert(out0 + render_out(v, k, topv, gbig).0 == old0 + render_out(
            v,
            0,
            topv,
            gacc + gbig,
        ).0);
        assert(render_out(v, k, topv, gbig).0 == render_out(bodyv, 0, topv, gbig).0 + render_out(
            v,
            k + 1,
            topv,
            g2,
        ).0);
        assert(render_out(v, k, topv, gbig).1 == gn.len() + render_out(v, k + 1, topv, g2).1);
        assert(outn + render_out(v, k + 1, topv, g2).0 =~= out0 + (render_out(
            bodyv,
            0,
            topv,
            gbig,
        ).0 + render_out(v, k + 1, topv, g2).0));
    }
}

fn render_value<'c, G: Generator>(c: &ContentType<'c, G>, out: &mut Vec<char>) -> (r: (
    Result<(), RenderError>,
    Ghost<Seq<Seq<char>>>,
))
    ensures
        final(out)@.len() >= old(out)@.len(),
        forall|i: int| 0 <= i < old(out)@.len() ==> final(out)@[i] == old(out)@[i],
        match value_view(*c) {
            ValueV::Text(t) => r.0 is Ok && final(out)@ == old(out)@ + t && r.1@
                == Seq::<Seq<char>>::empty(),
            ValueV::Tree(s2) => {
                &&& (spec_render(s2) matches Some(full) ==> r.0 is Ok && final(out)@ == old(out)@
                    + full)
                &&& (r.0 is Ok ==> forall|g2: Seq<Seq<char>>|
                    final(out)@ == old(out)@ + (#[trigger] render_out(
                        s2.tokens,
                        0,
                        s2,
                        r.1@ + g2,
                    )).0 && render_out(s2.tokens, 0, s2, r.1@ + g2).1 == r.1@.len())
            },
        },
    decreases value_view(*c), *c,
{
    match c {
        ContentType::Int(i) => {
            push_idec(*i, out);
            (Ok(()), Ghost(Seq::empty()))
        },
        ContentType::UnsignedInt(u) => {
            push_udec(*u, out);
            (Ok(()), Ghost(Seq::empty()))
        },
        ContentType::Char(ch) => {
            out.push(*ch);
            proof {
                assert(out@ =~= old(out)@ + spec_char_text(*ch));
            }
            (Ok(()), Ghost(Seq::empty()))
        },
        ContentType::Bool(b) => {
            push_bool(*b, out);
            (Ok(()), Ghost(Seq::empty()))
        },
        ContentType::Str(s) => {
            push_str_chars(s.as_str(), out);
            (Ok(()), Ghost(Seq::empty()))
        },
        ContentType::Template(t) => render_tokens(t, &t.tokens, out, Ghost(template_view(*t))),
        ContentType::Shell(sh) => render_tokens(
            sh,
            &sh.base.tokens,
            out,
            Ghost(nested_shell_view(*sh)),
        ),
    }
}

/// Renders a token sequence against the bindings of `top`, appending to
/// `out`. What `out` already holds is never disturbed, on any path.
/// Whenever the model determines the output (no bound generator is
/// reached), the call succeeds and appends exactly that output. On every
/// success the ghost result carries one text per bound-generator call, in
/// call order, and the appended output is exactly `render_out` of them:
/// everything around the generator segments is pinned down, and each call
/// contributes exactly one segment at its token's place. (Which text a
/// call returns is the generator's own business; the library assumes no
/// contract on it, so no clause can name that text.)
fn render_tokens<'t, G: Generator + 't, T: InnerTemplate<'t, G>>(
    top: &T,
    tokens: &Vec<Token>,
    out: &mut Vec<char>,
    Ghost(topv): Ghost<SourceV>,
) -> (r: (Result<(), RenderError>, Ghost<Seq<Seq<char>>>))
    requires
        topv == top.source_view(),
    ensures
        final(out)@.len() >= old(out)@.len(),
        forall|i: int| 0 <= i < old(out)@.len() ==> final(out)@[i] == old(out)@[i],
        render_from(tokens_view(tokens@), 0, top.source_view()) matches Some(full) ==> r.0 is Ok
            && final(out)@ == old(out)@ + full,
        r.0 is Ok ==> forall|g2: Seq<Seq<char>>|
            final(out)@ == old(out)@ + (#[trigger] render_out(
                tokens_view(tokens@),
                0,
                top.source_view(),
                r.1@ + g2,
            )).0 && render_out(tokens_view(tokens@), 0, top.source_view(), r.1@ + g2).1
                == r.1@.len(),
    decreases topv, *tokens,
{
    let ghost v = tokens_view(tokens@);
    proof {
        top.lemma_source_wf();
        lemma_tokens_view(tokens@);
    }
    let n = tokens.len();
    let mut k: usize = 0;
    let ghost mut gacc: Seq<Seq<char>> = Seq::empty();
    proof {
        assert forall|g2: Seq<Seq<char>>| #[trigger] (gacc + g2) == g2 by {
            assert(gacc + g2 =~= g2);
        }
    }
    while k < n
        invariant
            n == tokens.len(),
            k <= n,
            v == tokens_view(tokens@),
            topv == top.source_view(),
            source_wf(topv),
            out@.len() >= old(out)@.len(),
            forall|i: int| 0 <= i < old(out)@.len() ==> out@[i] == old(out)@[i],
            render_from(v, 0, topv) matches Some(full) ==> render_from(v, k as int, topv) matches
                Some(rest) && out@ + rest == old(out)@ + full,
            forall|g2: Seq<Seq<char>>|
                out@ + (#[trigger] render_out(v, k as int, topv, g2)).0 == old(out)@ + render_out(
                    v,
                    0,
                    topv,
                    gacc + g2,
                ).0 && render_out(v, 0, topv, gacc + g2).1 == gacc.len() + render_out(
                    v,
                    k as int,
                    topv,
                    g2,
                ).1,
        decreases n - k,
    {
        let ghost out0 = out@;
        let ghost gacc0 = gacc;
        proof {
            lemma_tokens_view(tokens@);
            assert(v[k as int] == token_view(tokens@[k as int]));
        }
        let t = &tokens[k];
        match t {
            Token::Literal(s) => {
                push_str_chars(s.as_str(), out);
                proof {
                    lemma_step_flat(v, k as int, topv, out0, old(out)@, gacc, s@);
                }
            },
            Token::Placeholder(l) => {
                match top.get_content(l.as_str()) {
                    Some(c) => {
                        proof {
                            if source_wf(topv) {
                                assert(value_wf(value_view(*c)));
                            }
                        }
                        let (res, gn) = render_value(c, out);
                        match res {
                            Ok(()) => {
                                proof {
                                    gacc = gacc + gn@;
                                    match value_view(*c) {
                                        ValueV::Text(tx) => {
                                            assert(gacc =~= gacc0);
                                            lemma_step_flat(
                                                v,
                                                k as int,
                                                topv,
                                                out0,
                                                old(out)@,
                                                gacc0,
                                                tx,
                                            );
                                        },
                                        ValueV::Tree(s2) => {
                                            assert forall|g2: Seq<Seq<char>>|
                                                out@ + (#[trigger] render_out(
                                                    v,
                                                    k as int + 1,
                                                    topv,
                                                    g2,
                                                )).0 == old(out)@ + render_out(
                                                    v,
                                                    0,
                                                    topv,
                                                    gacc + g2,
                                                ).0 && render_out(v, 0, topv, gacc + g2).1
                                                == gacc.len() + render_out(
                                                v,
                                                k as int + 1,
                                                topv,
                                                g2,
                                            ).1 by {
                                                assert(gacc0 + (gn@ + g2) =~= gacc + g2);
                                                assert((gn@ + g2).skip(gn@.len() as int) =~= g2);
                                                assert(out@ == out0 + render_out(
                                                    s2.tokens,
                                                    0,
                                                    s2,
                                                    gn@ + g2,
                                                ).0);
                                                assert(out0 + render_out(v, k as int, topv, gn@
                                                    + g2).0 == old(out)@ + render_out(
                                                    v,
                                                    0,
                                                    topv,
                                                    gacc0 + (gn@ + g2),
                                                ).0);
                                                assert(render_out(v, k as int, topv, gn@ + g2).0
                                                    == render_out(s2.tokens, 0, s2, gn@ + g2).0
                                                    + render_out(v, k as int + 1, topv, g2).0);
                                                assert(out0 + (render_out(
                                                    s2.tokens,
                                                    0,
                                                    s2,
                                                    gn@ + g2,
                                                ).0 + render_out(v, k as int + 1, topv, g2).0)
                                                    =~= out@ + render_out(
                                                    v,
                                                    k as int + 1,
                                                    topv,
                                                    g2,
                                                ).0);
                                            }
                                        },
                                    }
                                }
                            },
                            Err(e) => {
                                return (Err(e), Ghost(Seq::empty()));
                            },
                        }
                    },
                    None => {
                        proof {
                            lemma_step_flat(
                                v,
                                k as int,
                                topv,
                                out0,
                                old(out)@,
                                gacc,
                                Seq::empty(),
                            );
                        }
                    },
                }
            },
            Token::Conditional(l, e, body) => {
                if top.get_condition(l.as_str()) == *e {
                    let (res, gn) = render_tokens(top, body, out, Ghost(topv));
                    match res {
                        Ok(()) => {
                            proof {
                                lemma_step_nested(
                                    v,
                                    k as int,
                                    topv,
                                    out0,
                                    old(out)@,
                                    gacc,
                                    tokens_view(body@),
                                    gn@,
                                    out@,
                                );
                                gacc = gacc + gn@;
                            }
                        },
                        Err(e2) => {
                            return (Err(e2), Ghost(Seq::empty()));
                        },
                    }
                } else {
                    proof {
                        lemma_step_flat(v, k as int, topv, out0, old(out)@, gacc, Seq::empty());
                    }
                }
            },
            Token::ContentConditional(l, e, body) => {
                if top.is_content_defined(l.as_str()) == *e {
                    let (res, gn) = render_tokens(top, body, out, Ghost(topv));
                    match res {
                        Ok(()) => {
                            proof {
                                lemma_step_nested(
                                    v,
                                    k as int,
                                    topv,
                                    out0,
                                    old(out)@,
                                    gacc,
                                    tokens_view(body@),
                                    gn@,
                                    out@,
                                );
                                gacc = gacc + gn@;
                            }
                        },
                        Err(e2) => {
                            return (Err(e2), Ghost(Seq::empty()));
                        },
                    }
                } else {
                    proof {
                        lemma_step_flat(v, k as int, topv, out0, old(out)@, gacc, Seq::empty());
                    }
                }
            },
            Token::Generated(l, args) => {
                match top.get_generator(l.as_str()) {
                    Some(g) => {
                        match g.generate(args) {
                            Ok(s) => {
                                push_str_chars(s.as_str(), out);
                                proof {
                                    let gacc1 = gacc.push(s@);
                                    assert forall|g2: Seq<Seq<char>>|
                                        out@ + (#[trigger] render_out(
                                            v,
                                            k as int + 1,
                                            topv,
                                            g2,
                                        )).0 == old(out)@ + render_out(
                                            v,
                                            0,
                                            topv,
                                            gacc1 + g2,
                                        ).0 && render_out(v, 0, topv, gacc1 + g2).1 == gacc1.len()
                                        + render_out(v, k as int + 1, topv, g2).1 by {
                                        let gbig = seq![s@] + g2;
                                        assert(gacc + gbig =~= gacc1 + g2);
                                        assert(gbig[0] == s@);
                                        assert(gbig.skip(1) =~= g2);
                                        assert(out0 + render_out(v, k as int, topv, gbig).0
                                            == old(out)@ + render_out(v, 0, topv, gacc + gbig).0);
                                        assert(render_out(v, k as int, topv, gbig).0 == s@
                                            + render_out(v, k as int + 1, topv, g2).0);
                                        assert(out0 + (s@ + render_out(v, k as int + 1, topv, g2).0)
                                            =~= out@ + render_out(v, k as int + 1, topv, g2).0);
                                    }
                                    gacc = gacc1;
                                }
                            },
                            Err(e) => {
                                return (Err(e), Ghost(Seq::empty()));
                            },
                        }
                    },
                    None => {
                        proof {
                            lemma_step_flat(v, k as int, topv, out0, old(out)@, gacc, Seq::empty());
                        }
                    },
                }
            },
        }
        k = k + 1;
        proof {
            if render_from(v, 0, topv) is Some {
                assert(out@ + render_from(v, k as int, topv)->Some_0 == old(out)@ + render_from(
                    v,
                    0,
                    topv,
                )->Some_0);
            }
        }
    }
    proof {
        assert forall|g2: Seq<Seq<char>>|
            out@ == old(out)@ + (#[trigger] render_out(v, 0, topv, gacc + g2)).0 && render_out(
                v,
                0,
                topv,
                gacc + g2,
            ).1 == gacc.len() by {
            assert(render_out(v, n as int, topv, g2).0 == Seq::<char>::empty());
            assert(render_out(v, n as int, topv, g2).1 == 0);
            assert(out@ + Seq::<char>::empty() =~= out@);
        }
    }
    (Ok(()), Ghost(gacc))
}

impl<'c, G: Generator> FromStr for Template<'c, G> {
    type Err = ParseError;

    fn from_str(s: &str) -> Result<Template<'c, G>, ParseError> {
        Template::from_chars(&str_to_chars(s))
    }
}

/// A type that can be bound to a placeholder. `into_template_content`
/// wraps the value in the `ContentType` variant its view describes.
pub trait TemplateContent<'c, G> {
    /// The model of the content this value becomes.
    spec fn content_view(self) -> ValueV;

    fn into_template_content(self) -> (r: ContentType<'c, G>)
        ensures
            value_view(r) == self.content_view(),
    ;
}

impl<'c, G> TemplateContent<'c, G> for i64 {
    open spec fn content_view(self) -> ValueV {
        ValueV::Text(spec_idec(self as int))
    }

    fn into_template_content(self) -> ContentType<'c, G> {
        ContentType::Int(self)
    }
}

impl<'c, G> TemplateContent<'c, G> for i32 {
    open spec fn content_view(self) -> ValueV {
        ValueV::Text(spec_idec(self as int))
    }

    fn into_template_content(self) -> ContentType<'c, G> {
        ContentType::Int(self as i64)
    }
}

impl<'c, G> TemplateContent<'c, G> for i16 {
    open spec fn content_view(self) -> ValueV {
        ValueV::Text(spec_idec(self as int))
    }

    fn into_template_content(self) -> ContentType<'c, G> {
        ContentType::Int(self as i64)
    }
}

impl<'c, G> TemplateContent<'c, G> for i8 {
    open spec fn content_view(self) -> ValueV {
        ValueV::Text(spec_idec(self as int))
    }

    fn into_template_content(self) -> ContentType<'c, G> {
        ContentType::Int(self as i64)
    }
}

impl<'c, G> TemplateContent<'c, G> for isize {
    open spec fn content_view(self) -> ValueV {
        ValueV::Text(spec_idec(self as int))
    }

    fn into_template_content(self) -> ContentType<'c, G> {
        ContentType::Int(self as i64)
    }
}

impl<'c, G> TemplateContent<'c, G> for u64 {
    open spec fn content_view(self) -> ValueV {
        ValueV::Text(spec_udec(self as nat))
    }

    fn into_template_content(self) -> ContentType<'c, G> {
        ContentType::UnsignedInt(self)
    }
}

impl<'c, G> TemplateContent<'c, G> for u32 {
    open spec fn content_view(self) -> ValueV {
        ValueV::Text(spec_udec(self as nat))
    }

    fn into_template_content(self) -> ContentType<'c, G> {
        ContentType::UnsignedInt(self as u64)
    }
}

impl<'c, G> TemplateContent<'c, G> for u16 {
    open spec fn content_view(self) -> ValueV {
        ValueV::Text(spec_udec(self as nat))
    }

    fn into_template_content(self) -> ContentType<'c, G> {
        ContentType::UnsignedInt(self as u64)
    }
}

impl<'c, G> TemplateContent<'c, G> for u8 {
    open spec fn content_view(self) -> ValueV {
        ValueV::Text(spec_udec(self as nat))
    }

    fn into_template_content(self) -> ContentType<'c, G> {
        ContentType::UnsignedInt(self as u64)
    }
}

impl<'c, G> TemplateContent<'c, G> for usize {
    open spec fn content_view(self) -> ValueV {
        ValueV::Text(spec_udec(self as nat))
    }

    fn into_template_content(self) -> ContentType<'c, G> {
        ContentType::UnsignedInt(self as u64)
    }
}

impl<'c, G> TemplateContent<'c, G> for char {
    open spec fn content_view(self) -> ValueV {
        ValueV::Text(spec_char_text(self))
    }

    fn into_template_content(self) -> ContentType<'c, G> {
        char_content(self)
    }
}

impl<'c, G> TemplateContent<'c, G> for bool {
    open spec fn content_view(self) -> ValueV {
        ValueV::Text(spec_bool_text(self))
    }

    fn into_template_content(self) -> ContentType<'c, G> {
        ContentType::Bool(self)
    }
}

impl<'c, G> TemplateContent<'c, G> for String {
    open spec fn content_view(self) -> ValueV {
        ValueV::Text(self@)
    }

    fn into_template_content(self) -> ContentType<'c, G> {
        ContentType::Str(self)
    }
}

impl<'c, G> TemplateContent<'c, G> for &str {
    open spec fn content_view(self) -> ValueV {
        ValueV::Text(self@)
    }

    fn into_template_content(self) -> ContentType<'c, G> {
        ContentType::Str(self.to_owned())
    }
}

impl<'c, G> TemplateContent<'c, G> for Template<'c, G> {
    open spec fn content_view(self) -> ValueV {
        ValueV::Tree(template_view(self))
    }

    fn into_template_content(self) -> ContentType<'c, G> {
        ContentType::Template(self)
    }
}

impl<'c, G> TemplateContent<'c, G> for Shell<'c, Template<'c, G>, G> {
    open spec fn content_view(self) -> ValueV {
        ValueV::Tree(nested_shell_view(self))
    }

    fn into_template_content(self) -> ContentType<'c, G> {
        ContentType::Shell(self)
    }
}

impl<'c, G> TemplateContent<'c, G> for ContentType<'c, G> {
    open spec fn content_view(self) -> ValueV {
        value_view(self)
    }

    fn into_template_content(self) -> ContentType<'c, G> {
        self
    }
}

} // verus!
