//! Provides a simple Cobalt-to-HTML emitter.
//!
//! The emitter walks the expressions once, in order, and gathers the text of
//! the page's body; the page's head holds the title and the links to the
//! stylesheets. What it produces for a whole page is stated by [`document`].

use vstd::prelude::*;
use vstd::utf8::encode_utf8;
use crate::config::{string_views, Config, ConfigView};
use crate::error::{Error, ErrorView};
use crate::parser::{expression_views, option_view, Expression, ExpressionView};

verus! {

/// An attribute of an element, with the space that sets it off:
/// ` name="value"`.
pub open spec fn attribute(name: Seq<char>, value: Seq<char>) -> Seq<char> {
    " "@ + name + "=\""@ + value + "\""@
}

/// An attribute that is written only where it has a value.
pub open spec fn optional_attribute(name: Seq<char>, value: Option<Seq<char>>) -> Seq<char> {
    match value {
        Some(v) => attribute(name, v),
        None => Seq::empty(),
    }
}

/// The opening tag of the element `name`: the class and the id come first,
/// each where there is one, then the attribute `tag` with the value `arg`.
pub open spec fn open_tag(
    name: Seq<char>,
    tag: Seq<char>,
    arg: Seq<char>,
    class: Option<Seq<char>>,
    id: Option<Seq<char>>,
) -> Seq<char> {
    "<"@ + name + optional_attribute("class"@, class) + optional_attribute("id"@, id) + attribute(
        tag,
        arg,
    ) + ">"@
}

/// The name of the heading element of a level from 1 to 6.
pub open spec fn heading_name(level: nat) -> Seq<char>
    recommends
        1 <= level <= 6,
{
    if level == 1 {
        "h1"@
    } else if level == 2 {
        "h2"@
    } else if level == 3 {
        "h3"@
    } else if level == 4 {
        "h4"@
    } else if level == 5 {
        "h5"@
    } else {
        "h6"@
    }
}

/// An element `name` that holds `text`, with a newline after it.
pub open spec fn heading(name: Seq<char>, text: Seq<char>) -> Seq<char> {
    "<"@ + name + ">"@ + text + "</"@ + name + ">\n"@
}

/// What one expression contributes to a page.
pub struct Emitted {
    /// The name that the expression gives the page, if it gives one.
    pub page: Option<Seq<char>>,
    /// The text that it adds to the head.
    pub head: Seq<char>,
    /// The text that it adds to the body.
    pub body: Seq<char>,
}

/// What the expression `x` contributes to a page. A control sequence goes by
/// its keyword: `pagename` names the page and adds no text, `image`, `script`
/// and `download` add an element, and any other keyword is an error. A
/// download's class is always `download`.
pub open spec fn emitted(x: ExpressionView) -> Result<Emitted, ErrorView> {
    match x {
        ExpressionView::Ctrl { keyword, class, id, argument } => {
            if keyword == "pagename"@ {
                Ok(Emitted { page: Some(argument), head: Seq::empty(), body: Seq::empty() })
            } else if keyword == "image"@ {
                Ok(
                    Emitted {
                        page: None,
                        head: Seq::empty(),
                        body: open_tag("img"@, "src"@, argument, class, id),
                    },
                )
            } else if keyword == "script"@ {
                Ok(
                    Emitted {
                        page: None,
                        head: Seq::empty(),
                        body: open_tag("script"@, "src"@, argument, class, id) + "</script>"@,
                    },
                )
            } else if keyword == "download"@ {
                Ok(
                    Emitted {
                        page: None,
                        head: Seq::empty(),
                        body: open_tag("a"@, "href"@, argument, Some("download"@), id)
                            + "Download</a>"@,
                    },
                )
            } else {
                Err(ErrorView::InvalidCtrlSequence(keyword))
            }
        },
        ExpressionView::Paragraph(text) => Ok(
            Emitted { page: None, head: Seq::empty(), body: "<p>"@ + text + "</p>"@ },
        ),
        ExpressionView::Hyperlink { text, href } => Ok(
            Emitted {
                page: None,
                head: Seq::empty(),
                body: "<a href="@ + href + ">"@ + text + "</a>"@,
            },
        ),
        ExpressionView::Heading { level, text } => Ok(
            Emitted { page: None, head: Seq::empty(), body: heading(heading_name(level), text) },
        ),
    }
}

/// The body text of the expressions `xs`, one after the other, or the error
/// of the first expression that has one.
pub open spec fn body_text(xs: Seq<ExpressionView>) -> Result<Seq<char>, ErrorView>
    decreases xs.len(),
{
    if xs.len() == 0 {
        Ok(Seq::empty())
    } else {
        match body_text(xs.drop_last()) {
            Err(e) => Err(e),
            Ok(body) => match emitted(xs.last()) {
                Err(e) => Err(e),
                Ok(last) => Ok(body + last.body),
            },
        }
    }
}

/// The name that the expressions `xs` give the page: that of the last
/// expression that gives one, and the empty text where none does.
pub open spec fn page_name(xs: Seq<ExpressionView>) -> Seq<char>
    decreases xs.len(),
{
    if xs.len() == 0 {
        Seq::empty()
    } else {
        match emitted(xs.last()) {
            Ok(Emitted { page: Some(name), .. }) => name,
            _ => page_name(xs.drop_last()),
        }
    }
}

/// The title element of a page, made from the names of the site and of the
/// page as the protocol says. There are four protocols; any other text is an
/// error.
pub open spec fn title(protocol: Seq<char>, site: Seq<char>, page: Seq<char>) -> Result<
    Seq<char>,
    ErrorView,
> {
    if protocol == "page"@ {
        Ok("<title>"@ + page + "</title>\n"@)
    } else if protocol == "site"@ {
        Ok("<title>"@ + site + "</title>\n"@)
    } else if protocol == "page | site"@ {
        Ok("<title>"@ + page + " | "@ + site + "</title>\n"@)
    } else if protocol == "site | page"@ {
        Ok("<title>"@ + site + " | "@ + page + "</title>\n"@)
    } else {
        Err(ErrorView::InvalidConfig(protocol))
    }
}

/// The title protocol of a configuration: `page` where it names none.
pub open spec fn title_protocol(config: ConfigView) -> Seq<char> {
    match config.site.title {
        Some(protocol) => protocol,
        None => "page"@,
    }
}

/// The element that links a page to the stylesheet at `href`.
pub open spec fn stylesheet_link(href: Seq<char>) -> Seq<char> {
    "<link rel=\"stylesheet\" href=\""@ + href + "\">"@
}

/// The links to the stylesheets at `hrefs`, one after the other.
pub open spec fn stylesheet_links(hrefs: Seq<Seq<char>>) -> Seq<char>
    decreases hrefs.len(),
{
    if hrefs.len() == 0 {
        Seq::empty()
    } else {
        stylesheet_links(hrefs.drop_last()) + stylesheet_link(hrefs.last())
    }
}

/// The links to the external stylesheets of a configuration, in its order.
pub open spec fn external_links(config: ConfigView) -> Seq<char> {
    match config.style.external {
        Some(hrefs) => stylesheet_links(hrefs),
        None => Seq::empty(),
    }
}

/// The HTML document of a page with the expressions `xs`, under the
/// configuration `config`, whose default stylesheet is found at `stylesheet`.
///
/// The head holds the title, the link to the default stylesheet and the links
/// to the external ones; the body holds the text of the expressions. An
/// expression that cannot be emitted is reported first, then a title protocol
/// that is none, then a stylesheet whose place is not known.
pub open spec fn document(
    config: ConfigView,
    xs: Seq<ExpressionView>,
    stylesheet: Option<Seq<char>>,
) -> Result<Seq<char>, ErrorView> {
    match body_text(xs) {
        Err(e) => Err(e),
        Ok(body) => match title(title_protocol(config), config.site.name, page_name(xs)) {
            Err(e) => Err(e),
            Ok(title) => match stylesheet {
                None => Err(ErrorView::CouldNotOpenFile(config.style.default)),
                Some(href) => Ok(
                    "<!DOCTYPE html>\n<html>\n<head>\n"@ + title + stylesheet_link(href)
                        + external_links(config) + "</head>\n<body>\n"@ + body + "</body>\n"@
                        + "</html>\n"@,
                ),
            },
        },
    }
}

/// Whether `r` is what emitting the expressions `xs` hands back: the text of
/// their document, or the error that the document has in its place.
pub open spec fn emits(
    config: ConfigView,
    xs: Seq<ExpressionView>,
    stylesheet: Option<Seq<char>>,
    r: Result<String, Error>,
) -> bool {
    match document(config, xs, stylesheet) {
        Ok(text) => r matches Ok(s) && s@ == text,
        Err(e) => r matches Err(x) && x@ == e,
    }
}

/// The path of the file `file` under the directory `root`, as the platform
/// that the library is built for joins the two; `None` where the joined path
/// is not valid Unicode.
pub uninterp spec fn joined_path(root: Seq<char>, file: Seq<char>) -> Option<Seq<char>>;

/// Joins the path `file` to the directory `root` with `std::path::Path::join`
/// and hands back the joined path as a string, where it is valid Unicode.
/// Nothing is proved of it. The contract claims one thing: the result
/// depends on the two texts alone, so that it is the one that `joined_path`
/// names.
#[verifier::external_body]
fn join_path(root: &str, file: &str) -> (r: Option<String>)
    ensures
        option_view(r) == joined_path(root@, file@),
{
    std::path::Path::new(root).join(file).into_os_string().into_string().ok()
}

/// Tells whether two texts are the same.
fn same_text(a: &str, b: &str) -> (r: bool)
    ensures
        r == (a@ == b@),
{
    let a = a.to_owned();
    let b = b.to_owned();
    a == b
}

/// Writes the attribute `name` with the value `value` at the end of `out`.
fn push_attribute(out: &mut String, name: &str, value: &str)
    ensures
        final(out)@ == old(out)@ + attribute(name@, value@),
{
    out.append(" ");
    out.append(name);
    out.append("=\"");
    out.append(value);
    out.append("\"");
    assert(out@ =~= old(out)@ + attribute(name@, value@));
}

/// Writes the heading element `name` that holds `text`.
fn emit_heading(name: &str, text: &String) -> (r: String)
    ensures
        r@ == heading(name@, text@),
{
    let mut body = "<".to_owned();
    body.append(name);
    body.append(">");
    body.append(text.as_str());
    body.append("</");
    body.append(name);
    body.append(">\n");
    body
}

/// Writes the element that links a page to the stylesheet at `href`.
fn emit_stylesheet_link(href: &String) -> (r: String)
    ensures
        r@ == stylesheet_link(href@),
{
    let mut link = "<link rel=\"stylesheet\" href=\"".to_owned();
    link.append(href.as_str());
    link.append("\">");
    link
}

/// The text gathered for one page, as a mathematical value.
pub struct HtmlView {
    pub site: Seq<char>,
    pub page: Seq<char>,
    pub head: Seq<char>,
    pub body: Seq<char>,
}

/// Abstracts over the HTML processed in `Emitter::emit()`.
pub struct Html {
    site: String,
    page: String,
    head: String,
    body: String,
}

impl View for Html {
    type V = HtmlView;

    closed spec fn view(&self) -> HtmlView {
        HtmlView { site: self.site@, page: self.page@, head: self.head@, body: self.body@ }
    }
}

impl Html {
    /// Constructs a new instance of `Html`.
    pub fn new() -> (r: Self)
        ensures
            r@ == (HtmlView {
                site: Seq::empty(),
                page: Seq::empty(),
                head: Seq::empty(),
                body: Seq::empty(),
            }),
    {
        Self { site: String::new(), page: String::new(), head: String::new(), body: String::new() }
    }

    /// Sets the site name.
    pub fn set_site(&mut self, site: String)
        ensures
            final(self)@ == (HtmlView { site: site@, ..old(self)@ }),
    {
        self.site = site;
    }

    /// Sets the page name.
    pub fn set_page(&mut self, page: String)
        ensures
            final(self)@ == (HtmlView { page: page@, ..old(self)@ }),
    {
        self.page = page;
    }

    /// Pushes to the head.
    pub fn push_head(&mut self, s: &str)
        ensures
            final(self)@ == (HtmlView { head: old(self)@.head + s@, ..old(self)@ }),
    {
        self.head.append(s);
    }

    /// Pushes to the body.
    pub fn push_body(&mut self, s: &str)
        ensures
            final(self)@ == (HtmlView { body: old(self)@.body + s@, ..old(self)@ }),
    {
        self.body.append(s);
    }

    /// Gets the head.
    pub fn get_head(&self) -> (r: String)
        ensures
            r@ == self@.head,
    {
        self.head.clone()
    }

    /// Gets the body.
    pub fn get_body(&self) -> (r: String)
        ensures
            r@ == self@.body,
    {
        self.body.clone()
    }

    /// Gets the site & page name based on the provided protocol.
    pub fn get_name(&self, protocol: &str) -> (r: Result<String, Error>)
        ensures
            match title(protocol@, self@.site, self@.page) {
                Ok(text) => r matches Ok(s) && s@ == text,
                Err(e) => r matches Err(x) && x@ == e,
            },
    {
        let mut name = "<title>".to_owned();
        if same_text(protocol, "page") {
            name.append(self.page.as_str());
        } else if same_text(protocol, "site") {
            name.append(self.site.as_str());
        } else if same_text(protocol, "page | site") {
            name.append(self.page.as_str());
            name.append(" | ");
            name.append(self.site.as_str());
        } else if same_text(protocol, "site | page") {
            name.append(self.site.as_str());
            name.append(" | ");
            name.append(self.page.as_str());
        } else {
            return Err(Error::InvalidConfig(protocol.to_owned()));
        }
        name.append("</title>\n");
        Ok(name)
    }
}

/// Provides the `emit()` method to transform Cobalt syntax trees into HTML.
pub struct Emitter {
    config: Config,
}

impl View for Emitter {
    type V = ConfigView;

    closed spec fn view(&self) -> ConfigView {
        self.config@
    }
}

impl Emitter {
    /// Constructs a new emitter from a configuration.
    pub fn new(config: Config) -> (r: Self)
        ensures
            r@ == config@,
    {
        Self { config }
    }

    /// Emits an expression, accounting for class and ID.
    pub fn emit_class_id(
        &self,
        name: &str,
        tag: &str,
        arg: &str,
        class: Option<String>,
        id: Option<String>,
    ) -> (r: String)
        ensures
            r@ == open_tag(name@, tag@, arg@, option_view(class), option_view(id)),
    {
        let mut out = "<".to_owned();
        out.append(name);
        match class {
            Some(c) => match id {
                Some(i) => {
                    // Class and ID
                    push_attribute(&mut out, "class", c.as_str());
                    push_attribute(&mut out, "id", i.as_str());
                },
                None => {
                    // Class, no ID
                    push_attribute(&mut out, "class", c.as_str());
                    assert(out@ + Seq::<char>::empty() =~= out@);
                },
            },
            None => match id {
                Some(i) => {
                    // No Class but ID
                    assert(out@ + Seq::<char>::empty() =~= out@);
                    push_attribute(&mut out, "id", i.as_str());
                },
                None => {
                    assert(out@ + Seq::<char>::empty() + Seq::<char>::empty() =~= out@);
                },
            },
        }
        push_attribute(&mut out, tag, arg);
        out.append(">");
        out
    }

    /// Emits an expression into an optional page name, head code, body code.
    pub fn emit_expr(&self, expr: Expression) -> (r: Result<
        (Option<String>, String, String),
        Error,
    >)
        ensures
            match emitted(expr@) {
                Ok(out) => r matches Ok((page, head, body)) && option_view(page) == out.page
                    && head@ == out.head && body@ == out.body,
                Err(e) => r matches Err(x) && x@ == e,
            },
    {
        let mut page: Option<String> = None;
        let head = String::new();
        let mut body = String::new();

        match expr {
            Expression::Ctrl { keyword: k, class: c, id: i, argument: a } => {
                if same_text(k.as_str(), "pagename") {
                    page = Some(a);
                } else if same_text(k.as_str(), "image") {
                    body = self.emit_class_id("img", "src", a.as_str(), c, i);
                } else if same_text(k.as_str(), "script") {
                    body = self.emit_class_id("script", "src", a.as_str(), c, i);
                    body.append("</script>");
                } else if same_text(k.as_str(), "download") {
                    body =
                    self.emit_class_id("a", "href", a.as_str(), Some("download".to_owned()), i);
                    body.append("Download</a>");
                } else {
                    return Err(Error::InvalidCtrlSequence(k));
                }
            },
            Expression::Paragraph(s) => {
                body = "<p>".to_owned();
                body.append(s.as_str());
                body.append("</p>");
            },
            Expression::Hyperlink { text: t, href: h } => {
                body = "<a href=".to_owned();
                body.append(h.as_str());
                body.append(">");
                body.append(t.as_str());
                body.append("</a>");
            },
            Expression::H1(s) => {
                body = emit_heading("h1", &s);
            },
            Expression::H2(s) => {
                body = emit_heading("h2", &s);
            },
            Expression::H3(s) => {
                body = emit_heading("h3", &s);
            },
            Expression::H4(s) => {
                body = emit_heading("h4", &s);
            },
            Expression::H5(s) => {
                body = emit_heading("h5", &s);
            },
            Expression::H6(s) => {
                body = emit_heading("h6", &s);
            },
        };

        Ok((page, head, body))
    }

    /// Emits a vector of expressions into a `String`: the HTML document of
    /// the page. The default stylesheet is looked for under `root_directory`.
    pub fn emit(&self, expressions: Vec<Expression>, root_directory: &str) -> (r: Result<
        String,
        Error,
    >)
        ensures
            emits(
                self@,
                expression_views(expressions@),
                joined_path(root_directory@, self@.style.default),
                r,
            ),
    {
        let stylesheet = join_path(root_directory, self.config.style.default.as_str());
        self.emit_document(expressions, stylesheet)
    }

    /// Emits a vector of expressions into a `String`: the HTML document of
    /// the page, whose default stylesheet is found at `stylesheet`.
    pub fn emit_document(&self, expressions: Vec<Expression>, stylesheet: Option<String>) -> (r:
        Result<String, Error>)
        ensures
            emits(self@, expression_views(expressions@), option_view(stylesheet), r),
    {
        let header = "<!DOCTYPE html>\n<html>\n<head>\n";
        let footer = "</html>\n";
        let mut html = Html::new();

        html.set_site(self.config.site.name.clone());

        let ghost all = expressions@;
        let ghost xs = expression_views(all);
        for expr in it: expressions
            invariant
                it.seq() == all,
                xs == expression_views(all),
                body_text(xs.take(it.index() as int)) is Ok,
                html@ == (HtmlView {
                    site: self@.site.name,
                    page: page_name(xs.take(it.index() as int)),
                    head: Seq::empty(),
                    body: body_text(xs.take(it.index() as int))->Ok_0,
                }),
        {
            let ghost n = it.index() as int;
            proof {
                assert(xs.take(n + 1).drop_last() =~= xs.take(n));
                assert(xs.take(n + 1).last() == expr@);
            }
            let emitted = match self.emit_expr(expr) {
                Ok(e) => e,
                Err(e) => {
                    proof {
                        lemma_body_text_fails(xs, n + 1);
                    }
                    return Err(e);
                },
            };
            html.push_head(emitted.1.as_str());
            html.push_body(emitted.2.as_str());

            // Set the page name, if applicable.
            if let Some(s) = emitted.0 {
                html.set_page(s);
            }
            assert(html@.head =~= Seq::<char>::empty());
        }
        proof {
            assert(xs.take(xs.len() as int) =~= xs);
        }

        // Push configuration data to the head
        let title = match &self.config.site.title {
            Some(s) => html.get_name(s.as_str()),
            None => html.get_name("page"),
        };
        match title {
            Ok(t) => html.push_head(t.as_str()),
            Err(e) => {
                return Err(e);
            },
        }

        // Emit primary stylesheet and external stylesheets.
        let stylesheet = match stylesheet {
            Some(s) => s,
            None => {
                return Err(Error::CouldNotOpenFile(self.config.style.default.clone()));
            },
        };
        html.push_head(emit_stylesheet_link(&stylesheet).as_str());

        if let Some(s) = &self.config.style.external {
            let mut stylesheets = String::new();
            let mut k: usize = 0;
            while k < s.len()
                invariant
                    k <= s.len(),
                    stylesheets@ == stylesheet_links(string_views(s@).take(k as int)),
                decreases s.len() - k,
            {
                proof {
                    assert(string_views(s@).take(k as int + 1).drop_last() =~= string_views(
                        s@,
                    ).take(k as int));
                }
                stylesheets.append(emit_stylesheet_link(&s[k]).as_str());
                k += 1;
            }
            proof {
                assert(string_views(s@).take(k as int) =~= string_views(s@));
            }
            html.push_head(stylesheets.as_str());
        }
        html.push_head("</head>\n<body>\n");

        html.push_body("</body>\n");

        let mut output = String::new();
        output.append(header);
        output.append(html.get_head().as_str());
        output.append(html.get_body().as_str());
        output.append(footer);

        proof {
            let text = document(self@, xs, option_view(Some(stylesheet)))->Ok_0;
            assert(output@ =~= text);
        }
        Ok(output)
    }
}

/// Once a part of the expressions has no body text, no longer part has one:
/// the error is that of the first expression that cannot be emitted.
pub proof fn lemma_body_text_fails(xs: Seq<ExpressionView>, n: int)
    requires
        0 <= n <= xs.len(),
        body_text(xs.take(n)) is Err,
    ensures
        body_text(xs) == body_text(xs.take(n)),
    decreases xs.len() - n,
{
    if n == xs.len() {
        assert(xs.take(n) =~= xs);
    } else {
        assert(xs.take(n + 1).drop_last() =~= xs.take(n));
        lemma_body_text_fails(xs, n + 1);
    }
}

/// Emitting is a function of its inputs: what is emitted twice from the same
/// expressions, under the same configuration and with the stylesheet at the
/// same place, is the same text both times, byte for byte, or the same error.
pub proof fn lemma_emit_twice(
    config: ConfigView,
    xs: Seq<ExpressionView>,
    stylesheet: Option<Seq<char>>,
    first: Result<String, Error>,
    second: Result<String, Error>,
)
    requires
        emits(config, xs, stylesheet, first),
        emits(config, xs, stylesheet, second),
    ensures
        match (first, second) {
            (Ok(a), Ok(b)) => a@ == b@ && encode_utf8(a@) == encode_utf8(b@),
            (Err(a), Err(b)) => a@ == b@,
            _ => false,
        },
{
}

} // verus!
