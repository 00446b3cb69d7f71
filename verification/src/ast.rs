use crate::grammar::{ElementShape, ExprShape};
use crate::reader::{span_between, SourceSpan};
use vstd::prelude::*;

verus! {

/// A run of spaces and tabs, possibly empty.
#[derive(Clone, Debug, PartialEq, Eq)]
pub struct Whitespace {
    pub value: String,
    pub span: SourceSpan,
}

/// The name of a variable in an interpolation.
#[derive(Clone, Debug, PartialEq, Eq)]
pub struct Variable {
    pub name: String,
    pub span: SourceSpan,
}

/// What stands between `{{` and `}}`.
#[derive(Clone, Debug, PartialEq, Eq)]
pub struct Expr {
    pub space0: Whitespace,
    pub variable: Variable,
    pub space1: Whitespace,
}

/// One element of a template.
#[derive(Clone, Debug, PartialEq, Eq)]
pub enum TemplateElement {
    /// Literal text: what it means, and how it was written.
    Literal { decoded: String, raw: String },
    /// A reference to a variable.
    Interpolation(Expr),
}

/// A value that mixes literal text and interpolations.
#[derive(Clone, Debug, PartialEq, Eq)]
pub struct Template {
    pub quoted: bool,
    pub elements: Vec<TemplateElement>,
    pub span: SourceSpan,
}

/// A decoded string together with its source text.
#[derive(Clone, Debug, PartialEq, Eq)]
pub struct EncodedString {
    pub quoted: bool,
    pub decoded: String,
    pub raw: String,
    pub span: SourceSpan,
}

impl Expr {
    /// Whether this is the interpolation that stands in `buf` as `shape` says.
    pub open spec fn matches(&self, buf: Seq<char>, shape: ExprShape) -> bool {
        &&& self.space0.value@ == buf.subrange(shape.inner, shape.name_start)
        &&& self.space0.span == span_between(buf, shape.inner, shape.name_start)
        &&& self.variable.name@ == buf.subrange(shape.name_start, shape.name_end)
        &&& self.variable.span == span_between(buf, shape.name_start, shape.name_end)
        &&& self.space1.value@ == buf.subrange(shape.name_end, shape.close)
        &&& self.space1.span == span_between(buf, shape.name_end, shape.close)
    }
}

impl TemplateElement {
    /// Whether this is the element that stands in `buf` as `shape` says. The
    /// source text of a literal is the stretch of `buf` it was read from.
    pub open spec fn matches(&self, buf: Seq<char>, shape: ElementShape) -> bool {
        match (*self, shape) {
            (
                TemplateElement::Literal { decoded, raw },
                ElementShape::Literal { decoded: text, start, end },
            ) => decoded@ == text && raw@ == buf.subrange(start, end),
            (TemplateElement::Interpolation(e), ElementShape::Interpolation(s)) => e.matches(
                buf,
                s,
            ),
            _ => false,
        }
    }
}

impl TemplateElement {
    /// A literal holds text: neither its decoded text nor its source text
    /// is empty.
    pub open spec fn wf(&self) -> bool {
        match *self {
            TemplateElement::Literal { decoded, raw } => decoded@.len() > 0 && raw@.len() > 0,
            TemplateElement::Interpolation(_) => true,
        }
    }
}

/// Whether every one of `elements` is well formed.
pub open spec fn all_wf(elements: Seq<TemplateElement>) -> bool {
    forall|k: int| 0 <= k < elements.len() ==> (#[trigger] elements[k]).wf()
}

impl Template {
    /// No literal of the template is empty, and its span does not end
    /// before it starts.
    pub open spec fn wf(&self) -> bool {
        all_wf(self.elements@) && self.span.ordered()
    }
}

/// Whether `elements` are, one by one, the elements that `shapes` describe.
pub open spec fn elements_match(
    elements: Seq<TemplateElement>,
    buf: Seq<char>,
    shapes: Seq<ElementShape>,
) -> bool {
    &&& elements.len() == shapes.len()
    &&& forall|k: int| 0 <= k < elements.len() ==> (#[trigger] elements[k]).matches(buf, shapes[k])
}

} // verus!
