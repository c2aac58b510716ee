use vstd::prelude::*;
use crate::image::{fit_image, fitted_cells, glyph_grid, placeholder, Image, TermSize};
use crate::style::{Effect, Style};

verus! {

/// What the markup renderer attaches to a run of text.
#[derive(Debug)]
pub enum Annotation {
    Default,
    Link(String),
    Image(String),
    Emphasis,
    Strong,
    Strikeout,
    Code,
    Preformat(bool),
    Header(usize),
}

/// The characters of an optional string.
pub open spec fn opt_chars(o: Option<String>) -> Option<Seq<char>> {
    match o {
        Some(s) => Some(s@),
        None => None,
    }
}

/// The effect that an annotation gives its run, if any.
pub open spec fn annotation_style(a: Annotation) -> Option<Style> {
    match a {
        Annotation::Link(_) => Some(Style::single(Effect::Underline)),
        Annotation::Image(_) => Some(Style::single(Effect::Image)),
        Annotation::Emphasis => Some(Style::single(Effect::Italic)),
        Annotation::Strong => Some(Style::single(Effect::Bold)),
        Annotation::Strikeout => Some(Style::single(Effect::Strikethrough)),
        Annotation::Header(_) => Some(Style::single(Effect::Bold)),
        _ => None,
    }
}

/// The target that an annotation links its run to, if any.
pub open spec fn annotation_link(a: Annotation) -> Option<Seq<char>> {
    match a {
        Annotation::Link(url) => Some(url@),
        Annotation::Image(url) => Some(url@),
        _ => None,
    }
}

/// Turns one annotation into a style and a link target.
pub trait Converter<A> {
    spec fn style_of(&self, annotation: A) -> Option<Style>;

    spec fn link_of(&self, annotation: A) -> Option<Seq<char>>;

    fn get_style(&self, annotation: &A) -> (r: Option<Style>)
        ensures
            r == self.style_of(*annotation),
    ;

    fn get_link(&self, annotation: &A) -> (r: Option<String>)
        ensures
            opt_chars(r) == self.link_of(*annotation),
    ;
}

/// The converter for the renderer's own annotations.
pub struct RichConverter;

impl Converter<Annotation> for RichConverter {
    open spec fn style_of(&self, annotation: Annotation) -> Option<Style> {
        annotation_style(annotation)
    }

    open spec fn link_of(&self, annotation: Annotation) -> Option<Seq<char>> {
        annotation_link(annotation)
    }

    fn get_style(&self, annotation: &Annotation) -> (r: Option<Style>) {
        match annotation {
            Annotation::Default => None,
            Annotation::Link(_) => Some(Style::from_effect(Effect::Underline)),
            Annotation::Image(_) => Some(Style::from_effect(Effect::Image)),
            Annotation::Emphasis => Some(Style::from_effect(Effect::Italic)),
            Annotation::Strong => Some(Style::from_effect(Effect::Bold)),
            Annotation::Strikeout => Some(Style::from_effect(Effect::Strikethrough)),
            Annotation::Code => None,
            Annotation::Preformat(_) => None,
            Annotation::Header(_) => Some(Style::from_effect(Effect::Bold)),
        }
    }

    fn get_link(&self, annotation: &Annotation) -> (r: Option<String>) {
        match annotation {
            Annotation::Link(url) => Some(url.clone()),
            Annotation::Image(url) => Some(url.clone()),
            _ => None,
        }
    }
}

/// One styled run of a wrapped line.
#[derive(Debug)]
pub struct Element {
    pub text: String,
    pub style: Style,
    pub target: Option<String>,
    pub image_info: Option<Image>,
}

/// The parts of an image that a reader sees: footprint, path and identifier.
pub open spec fn image_view(o: Option<Image>) -> Option<((u32, u32), Seq<char>, Seq<char>)> {
    match o {
        Some(i) => Some((i.size, i.path@, i.id@)),
        None => None,
    }
}

impl Element {
    pub fn new(text: String, style: Style, target: Option<String>, image_info: Option<Image>) -> (r: Element)
        ensures
            r.text == text,
            r.style == style,
            r.target == target,
            r.image_info == image_info,
    {
        Element { text, style, target, image_info }
    }

    /// What the element shows: text, style, link target and image.
    pub open spec fn view(&self) -> (Seq<char>, Style, Option<Seq<char>>, Option<((u32, u32), Seq<char>, Seq<char>)>) {
        (self.text@, self.style, opt_chars(self.target), image_view(self.image_info))
    }
}

/// What probing an image file gave: its pixel size and the path it was
/// found at.
#[derive(Debug)]
pub struct ImageProbe {
    pub width_px: u32,
    pub height_px: u32,
    pub path: String,
}

/// A run of text as the renderer emits it: its text, its annotations, and
/// for each annotation the outcome of probing the image it names (`None`
/// where it names none or the file could not be read).
#[derive(Debug)]
pub struct Run {
    pub text: String,
    pub tags: Vec<Annotation>,
    pub probes: Vec<Option<ImageProbe>>,
}

impl Run {
    pub open spec fn wf(&self) -> bool {
        self.tags@.len() == self.probes@.len()
    }
}

/// The renderer's context: where extracted images lie and the terminal size.
pub struct Decorator {
    pub root_dir: String,
    pub term_info: TermSize,
}

/// The image that a probe outcome gives on terminal `t`.
pub open spec fn probed_image(t: TermSize, p: Option<ImageProbe>) -> Option<((u32, u32), Seq<char>, Seq<char>)> {
    match p {
        Some(p) => Some((fitted_cells(p.width_px as int, p.height_px as int, t), p.path@, Seq::empty())),
        None => None,
    }
}

/// The styles that the annotations give, in order.
pub open spec fn styles_of(tags: Seq<Annotation>) -> Seq<Style>
    decreases tags.len(),
{
    if tags.len() == 0 {
        Seq::empty()
    } else {
        let init = styles_of(tags.drop_last());
        match annotation_style(tags.last()) {
            Some(s) => init.push(s),
            None => init,
        }
    }
}

/// The first link target among `tags[i..]`.
pub open spec fn first_link(tags: Seq<Annotation>, i: int) -> Option<Seq<char>>
    decreases tags.len() - i,
{
    if i < 0 || i >= tags.len() {
        None
    } else {
        match annotation_link(tags[i]) {
            Some(u) => Some(u),
            None => first_link(tags, i + 1),
        }
    }
}

/// The first image among `tags[i..]` that names an image whose probe
/// succeeded.
pub open spec fn first_image(t: TermSize, tags: Seq<Annotation>, probes: Seq<Option<ImageProbe>>, i: int) -> Option<((u32, u32), Seq<char>, Seq<char>)>
    decreases tags.len() - i,
{
    if i < 0 || i >= tags.len() {
        None
    } else if tags[i] is Image && probes[i] is Some {
        probed_image(t, probes[i])
    } else {
        first_image(t, tags, probes, i + 1)
    }
}

/// The element that a run becomes on terminal `t`.
pub open spec fn run_element(t: TermSize, run: Run) -> (Seq<char>, Style, Option<Seq<char>>, Option<((u32, u32), Seq<char>, Seq<char>)>) {
    (run.text@, Style::merged(styles_of(run.tags@)), first_link(run.tags@, 0), first_image(t, run.tags@, run.probes@, 0))
}

/// `out` holds, line by line and run by run, the elements of `lines`.
pub open spec fn rendered_as(t: TermSize, lines: Seq<Vec<Run>>, out: Seq<Vec<Element>>) -> bool {
    &&& out.len() == lines.len()
    &&& forall|i: int| 0 <= i < lines.len() ==> {
        &&& (#[trigger] out[i])@.len() == lines[i]@.len()
        &&& forall|j: int| 0 <= j < lines[i]@.len() ==> (#[trigger] out[i]@[j]).view() == run_element(t, lines[i]@[j])
    }
}

impl Decorator {
    pub fn new(root_dir: String, term_info: TermSize) -> (r: Decorator)
        ensures
            r.root_dir == root_dir,
            r.term_info == term_info,
    {
        Decorator { root_dir, term_info }
    }

    /// The image that a probe outcome gives, sized to fit the terminal.
    pub fn create_image(&self, probe: &Option<ImageProbe>) -> (r: Option<Image>)
        ensures
            image_view(r) == probed_image(self.term_info, *probe),
    {
        match probe {
            Some(p) => {
                let size = fit_image(p.width_px, p.height_px, self.term_info);
                Some(Image { size, path: p.path.clone(), id: String::new() })
            },
            None => None,
        }
    }

    /// Footprint in cells of a probed image, or (0, 0) where there is none.
    pub fn get_image_dimensions(&self, probe: &Option<ImageProbe>) -> (r: (u32, u32))
        ensures
            r == match probe {
                Some(p) => fitted_cells(p.width_px as int, p.height_px as int, self.term_info),
                None => (0u32, 0u32),
            },
            r.0 <= self.term_info.col,
    {
        match probe {
            Some(p) => fit_image(p.width_px, p.height_px, self.term_info),
            None => (0, 0),
        }
    }

    /// The image of an image annotation, given the outcome of probing it.
    pub fn get_image_info(&self, annotation: &Annotation, probe: &Option<ImageProbe>) -> (r: Option<Image>)
        ensures
            image_view(r) == if *annotation is Image {
                probed_image(self.term_info, *probe)
            } else {
                None
            },
    {
        if let Annotation::Image(_) = annotation {
            self.create_image(probe)
        } else {
            None
        }
    }

    /// The text that stands for an image in the wrapped layout.
    pub fn image_placeholder(&self, probe: &Option<ImageProbe>) -> (r: String)
        ensures
            ({
                let d = match probe {
                    Some(p) => fitted_cells(p.width_px as int, p.height_px as int, self.term_info),
                    None => (0u32, 0u32),
                };
                r@ == glyph_grid(d.0 as nat, d.1 as nat, self.term_info.col as nat)
            }),
    {
        let (w, h) = self.get_image_dimensions(probe);
        placeholder(w, h, self.term_info.col)
    }

    /// The element of one run: its text, the merge of the styles of its
    /// annotations, the first link target and the first resolvable image.
    pub fn element_from_run(&self, run: &Run) -> (r: Element)
        requires
            run.wf(),
        ensures
            r.view() == run_element(self.term_info, *run),
    {
        let conv = RichConverter;
        let tags = &run.tags;
        let n = tags.len();
        let mut styles: Vec<Style> = Vec::new();
        let mut i: usize = 0;
        while i < n
            invariant
                n == tags@.len(),
                i <= n,
                styles@ == styles_of(tags@.subrange(0, i as int)),
            decreases n - i,
        {
            proof {
                assert(tags@.subrange(0, i + 1).drop_last() == tags@.subrange(0, i as int));
            }
            if let Some(s) = conv.get_style(&tags[i]) {
                styles.push(s);
            }
            i = i + 1;
        }
        assert(tags@.subrange(0, n as int) == tags@);
        let style = Style::merge(styles.as_slice());
        let mut target: Option<String> = None;
        let mut j: usize = 0;
        while j < n
            invariant_except_break
                target is None,
            invariant
                n == tags@.len(),
                j <= n,
                first_link(tags@, 0) == first_link(tags@, j as int),
            ensures
                opt_chars(target) == first_link(tags@, 0),
            decreases n - j,
        {
            let l = conv.get_link(&tags[j]);
            if l.is_some() {
                target = l;
                break;
            }
            j = j + 1;
        }
        let mut image_info: Option<Image> = None;
        let mut k: usize = 0;
        while k < n
            invariant_except_break
                image_info is None,
            invariant
                n == tags@.len(),
                n == run.probes@.len(),
                k <= n,
                first_image(self.term_info, tags@, run.probes@, 0)
                    == first_image(self.term_info, tags@, run.probes@, k as int),
            ensures
                image_view(image_info) == first_image(self.term_info, tags@, run.probes@, 0),
            decreases n - k,
        {
            let im = self.get_image_info(&tags[k], &run.probes[k]);
            if im.is_some() {
                image_info = im;
                break;
            }
            k = k + 1;
        }
        Element::new(run.text.clone(), style, target, image_info)
    }

    /// The elements of every run of every line, in order.
    pub fn assemble(&self, lines: &Vec<Vec<Run>>) -> (r: Vec<Vec<Element>>)
        requires
            forall|i: int, j: int| 0 <= i < lines@.len() && 0 <= j < lines@[i]@.len()
                ==> (#[trigger] lines@[i]@[j]).wf(),
        ensures
            rendered_as(self.term_info, lines@, r@),
    {
        let mut doc: Vec<Vec<Element>> = Vec::new();
        let mut i: usize = 0;
        while i < lines.len()
            invariant
                i <= lines@.len(),
                doc@.len() == i,
                forall|a: int, j: int| 0 <= a < lines@.len() && 0 <= j < lines@[a]@.len()
                    ==> (#[trigger] lines@[a]@[j]).wf(),
                forall|a: int| 0 <= a < i ==> {
                    &&& (#[trigger] doc@[a])@.len() == lines@[a]@.len()
                    &&& forall|j: int| 0 <= j < lines@[a]@.len() ==> (#[trigger] doc@[a]@[j]).view() == run_element(self.term_info, lines@[a]@[j])
                },
            decreases lines@.len() - i,
        {
            let line = &lines[i];
            let mut elements: Vec<Element> = Vec::new();
            let mut j: usize = 0;
            while j < line.len()
                invariant
                    j <= line@.len(),
                    elements@.len() == j,
                    forall|b: int| 0 <= b < line@.len() ==> (#[trigger] line@[b]).wf(),
                    forall|b: int| 0 <= b < j ==> (#[trigger] elements@[b]).view() == run_element(self.term_info, line@[b]),
                decreases line@.len() - j,
            {
                let e = self.element_from_run(&line[j]);
                elements.push(e);
                j = j + 1;
            }
            doc.push(elements);
            i = i + 1;
        }
        doc
    }
}

/// Rendering has no hidden state: two renderings of the same lines on the
/// same terminal show the same elements.
pub proof fn lemma_render_deterministic(t: TermSize, lines: Seq<Vec<Run>>, a: Seq<Vec<Element>>, b: Seq<Vec<Element>>)
    requires
        rendered_as(t, lines, a),
        rendered_as(t, lines, b),
    ensures
        a.len() == b.len(),
        forall|i: int| 0 <= i < a.len() ==> (#[trigger] a[i])@.len() == b[i]@.len(),
        forall|i: int, j: int| 0 <= i < a.len() && 0 <= j < a[i]@.len() ==> (#[trigger] a[i]@[j]).view() == b[i]@[j].view(),
{
    assert forall|i: int, j: int| 0 <= i < a.len() && 0 <= j < a[i]@.len() implies (#[trigger] a[i]@[j]).view() == b[i]@[j].view() by {
        assert(a[i]@[j].view() == run_element(t, lines[i]@[j]));
        assert(b[i]@[j].view() == run_element(t, lines[i]@[j]));
    }
}

} // verus!
