//! The XML of WebDAV: a tree of namespaced properties.

use crate::error::{fails, other, Result};
use crate::text::{lit, opt, same, trim, trimmed};
use quick_xml::events::Event;
use quick_xml::name::ResolveResult;
use quick_xml::XmlVersion::Implicit1_0;
use vstd::prelude::*;
use vstd::string::*;

verus! {

pub const DAV: &'static str = "DAV:";

/// An XML element: its name, its text and its children.
#[derive(Debug)]
pub struct Property {
    pub namespace: String,
    pub name: String,
    pub text: String,
    pub children: Vec<Property>,
}

/// The model of a [`Property`].
#[verifier::ext_equal]
pub struct Tree {
    pub namespace: Seq<char>,
    pub name: Seq<char>,
    pub text: Seq<char>,
    pub children: Seq<Tree>,
}

/// The model of an element.
pub open spec fn tree(p: Property) -> Tree
    decreases p,
{
    Tree {
        namespace: p.namespace@,
        name: p.name@,
        text: p.text@,
        children: Seq::new(
            p.children@.len(),
            |i: int|
                if 0 <= i < p.children@.len() {
                    tree(p.children@[i])
                } else {
                    arbitrary()
                },
        ),
    }
}

impl View for Property {
    type V = Tree;

    open spec fn view(&self) -> Tree {
        tree(*self)
    }
}

/// The models of a list of elements.
pub open spec fn trees(v: Seq<Property>) -> Seq<Tree> {
    v.map_values(|p: Property| p@)
}

/// The children of an element are seen as its model shows them.
pub(crate) proof fn children_are_trees(p: Property)
    ensures
        p@.children == trees(p.children@),
{
    assert(p@.children =~= trees(p.children@));
}

impl Tree {
    /// A WebDAV element of that name.
    pub open spec fn is(self, name: Seq<char>) -> bool {
        self.namespace == DAV@ && self.name == name
    }

    /// Whether a WebDAV element of that name stands anywhere in the tree.
    pub open spec fn holds(self, name: Seq<char>) -> bool
        decreases self,
    {
        self.is(name) || exists|i: int|
            0 <= i < self.children.len() && (#[trigger] self.children[i]).holds(name)
    }

    /// The first child that is a WebDAV element of that name.
    pub open spec fn kid(self, name: Seq<char>) -> Option<Tree> {
        first_of(self.children, name)
    }

    /// The text of that child, without the whitespace around it.
    pub open spec fn worth(self, name: Seq<char>) -> Option<Seq<char>> {
        match self.kid(name) {
            Some(t) => Some(trimmed(t.text)),
            None => None,
        }
    }
}

/// The first WebDAV element of that name in a list.
pub open spec fn first_of(list: Seq<Tree>, name: Seq<char>) -> Option<Tree>
    decreases list.len(),
{
    if list.len() == 0 {
        None
    } else if list[0].is(name) {
        Some(list[0])
    } else {
        first_of(list.skip(1), name)
    }
}

/// The model of an optional element.
pub open spec fn opt_tree(o: Option<&Property>) -> Option<Tree> {
    match o {
        Some(p) => Some(p@),
        None => None,
    }
}

/// The first WebDAV element of that name in a list.
pub fn prop<'a>(props: &'a Vec<Property>, name: &str) -> (r: Option<&'a Property>)
    ensures
        opt_tree(r) == first_of(trees(props@), name@),
{
    let ghost all = trees(props@);
    let mut i: usize = 0;
    proof {
        assert(all.skip(0) == all);
    }
    while i < props.len()
        invariant
            i <= props.len(),
            all == trees(props@),
            first_of(all.skip(i as int), name@) == first_of(all, name@),
        decreases props.len() - i,
    {
        proof {
            assert(all.skip(i as int)[0] == props@[i as int]@);
            assert(all.skip(i as int).skip(1) == all.skip(i + 1));
        }
        if props[i].is(name) {
            return Some(&props[i]);
        }
        i = i + 1;
    }
    None
}

impl Property {
    pub fn is(&self, name: &str) -> (r: bool)
        ensures
            r == self@.is(name@),
    {
        same(self.namespace.as_str(), DAV) && same(self.name.as_str(), name)
    }

    pub fn child(&self, name: &str) -> (r: Option<&Self>)
        ensures
            opt_tree(r) == self@.kid(name@),
    {
        proof {
            children_are_trees(*self);
        }
        prop(&self.children, name)
    }

    pub fn value(&self, name: &str) -> (r: Option<String>)
        ensures
            opt(r) == self@.worth(name@),
    {
        match self.child(name) {
            Some(p) => Some(trim(p.text.as_str())),
            None => None,
        }
    }

    pub fn contains(&self, name: &str) -> (r: bool)
        ensures
            r == self@.holds(name@),
        decreases self,
    {
        if self.is(name) {
            return true;
        }
        let mut i: usize = 0;
        while i < self.children.len()
            invariant
                i <= self.children.len(),
                !self@.is(name@),
                forall|j: int| 0 <= j < i ==> !(#[trigger] self@.children[j]).holds(name@),
            decreases self.children.len() - i,
        {
            proof {
                assert(decreases_to!(self.children => self.children[i as int]));
                assert(decreases_to!(*self => self.children));
                assert(self@.children[i as int] == self.children@[i as int]@);
            }
            if self.children[i].contains(name) {
                return true;
            }
            i = i + 1;
        }
        false
    }

    /// The same element again.
    pub fn copy(&self) -> (r: Property)
        ensures
            r@ == self@,
        decreases self,
    {
        let mut kids: Vec<Property> = Vec::new();
        let mut i: usize = 0;
        while i < self.children.len()
            invariant
                i <= self.children.len(),
                kids@.len() == i,
                forall|k: int| 0 <= k < i ==> tree(#[trigger] kids@[k]) == tree(self.children@[k]),
            decreases self.children.len() - i,
        {
            proof {
                assert(decreases_to!(self.children => self.children[i as int]));
                assert(decreases_to!(*self => self.children));
            }
            kids.push(self.children[i].copy());
            i = i + 1;
        }
        let r = Property {
            namespace: self.namespace.clone(),
            name: self.name.clone(),
            text: self.text.clone(),
            children: kids,
        };
        proof {
            assert(r@.children =~= self@.children);
        }
        r
    }
}

/// Two blanks for each level.
pub open spec fn indent(depth: nat) -> Seq<char>
    decreases depth,
{
    if depth == 0 {
        Seq::empty()
    } else {
        indent((depth - 1) as nat) + "  "@
    }
}

/// One line for an element that holds text, none for any other.
pub open spec fn described_line(t: Tree, depth: nat) -> Seq<char> {
    if trimmed(t.text).len() == 0 {
        Seq::empty()
    } else {
        indent(depth) + t.name + ": "@ + trimmed(t.text) + "\n"@
    }
}

/// A line for the element, then the lines of its children.
pub open spec fn described(t: Tree, depth: nat) -> Seq<char>
    decreases t, t.children.len() + 1,
{
    described_line(t, depth) + described_children(t, depth, t.children.len() as int)
}

/// The lines of the first `count` children.
pub open spec fn described_children(t: Tree, depth: nat, count: int) -> Seq<char>
    decreases t, count,
{
    if count <= 0 || count > t.children.len() {
        Seq::empty()
    } else {
        described_children(t, depth, count - 1) + described(t.children[count - 1], depth + 1)
    }
}

fn write_description(p: &Property, pad: &str, Ghost(depth): Ghost<nat>, out: &mut String)
    requires
        pad@ == indent(depth),
    ensures
        final(out)@ == old(out)@ + described(p@, depth),
    decreases p,
{
    let text = trim(p.text.as_str());
    let ghost before = out@;
    if !text.as_str().is_empty() {
        out.append(pad);
        out.append(p.name.as_str());
        out.append(": ");
        out.append(text.as_str());
        out.append("\n");
    }
    let deeper = lit(pad).concat("  ");
    proof {
        assert(out@ =~= before + described_line(p@, depth));
        assert(deeper@ == indent(depth + 1));
    }
    let ghost headed = out@;
    let mut i: usize = 0;
    proof {
        assert(out@ =~= headed + described_children(p@, depth, 0));
    }
    while i < p.children.len()
        invariant
            i <= p.children.len(),
            deeper@ == indent(depth + 1),
            out@ == headed + described_children(p@, depth, i as int),
        decreases p.children.len() - i,
    {
        proof {
            assert(decreases_to!(p.children => p.children[i as int]));
            assert(decreases_to!(*p => p.children));
            assert(p@.children[i as int] == p.children@[i as int]@);
        }
        write_description(&p.children[i], deeper.as_str(), Ghost(depth + 1), out);
        proof {
            assert(out@ =~= headed + (described_children(p@, depth, i as int) + described(
                p@.children[i as int],
                depth + 1,
            )));
        }
        i = i + 1;
    }
    proof {
        assert(out@ =~= before + described(p@, depth));
    }
}

impl Property {
    /// The texts of a tree, one line each, indented by depth.
    pub fn describe(&self) -> (r: String)
        ensures
            r@ == described(self@, 0),
    {
        let mut out = String::new();
        proof {
            assert(""@ =~= indent(0)) by {
                reveal_strlit("");
            }
        }
        write_description(self, "", Ghost(0), &mut out);
        proof {
            assert(out@ =~= described(self@, 0));
        }
        out
    }
}

/// How `quick_xml::escape::escape` writes one character.
pub open spec fn escaped_char(c: char) -> Seq<char> {
    if c == '<' {
        "&lt;"@
    } else if c == '>' {
        "&gt;"@
    } else if c == '&' {
        "&amp;"@
    } else if c == '\'' {
        "&apos;"@
    } else if c == '"' {
        "&quot;"@
    } else if c == '\r' {
        "&#13;"@
    } else {
        seq![c]
    }
}

/// A text with its markup characters written as references.
pub open spec fn escaped(s: Seq<char>) -> Seq<char>
    decreases s.len(),
{
    if s.len() == 0 {
        Seq::empty()
    } else {
        escaped(s.drop_last()) + escaped_char(s.last())
    }
}

/// Calls `quick_xml::escape::escape`, which writes the five markup characters and the carriage
/// return as references and every other character as it is.
#[verifier::external_body]
pub(crate) fn escape(s: &str) -> (r: String)
    ensures
        r@ == escaped(s@),
{
    quick_xml::escape::escape(s).into_owned()
}

/// What `quick_xml::escape::unescape` makes of a text; `None` where it holds a reference that is
/// not known or not closed.
pub uninterp spec fn unescaped(s: Seq<char>) -> Option<Seq<char>>;

/// Calls `quick_xml::escape::unescape`. The result depends on the text alone.
#[verifier::external_body]
fn unescape(s: &str) -> (r: Option<String>)
    ensures
        opt(r) == unescaped(s@),
{
    quick_xml::escape::unescape(s).ok().map(|v| v.into_owned())
}

/// What a reference by that name stands for; `None` where none is known.
pub open spec fn entity_value(name: Seq<char>) -> Option<Seq<char>> {
    unescaped("&"@ + name + ";"@)
}

fn resolve_entity(name: &str) -> (r: Option<String>)
    ensures
        opt(r) == entity_value(name@),
{
    unescape(lit("&").concat(name).concat(";").as_str())
}

/// An element as XML, its namespace on every level.
pub open spec fn written(t: Tree) -> Seq<char>
    decreases t, t.children.len() + 1,
{
    "<"@ + t.name + " xmlns=\""@ + escaped(t.namespace) + "\">"@ + escaped(t.text)
        + written_children(t, t.children.len() as int) + "</"@ + t.name + ">"@
}

/// The first `count` children as XML.
pub open spec fn written_children(t: Tree, count: int) -> Seq<char>
    decreases t, count,
{
    if count <= 0 || count > t.children.len() {
        Seq::empty()
    } else {
        written_children(t, count - 1) + written(t.children[count - 1])
    }
}

impl Property {
    pub fn xml(&self) -> (r: String)
        ensures
            r@ == written(self@),
        decreases self,
    {
        let mut kids = String::new();
        let mut i: usize = 0;
        proof {
            assert(kids@ =~= written_children(self@, 0));
        }
        while i < self.children.len()
            invariant
                i <= self.children.len(),
                kids@ == written_children(self@, i as int),
            decreases self.children.len() - i,
        {
            proof {
                assert(decreases_to!(self.children => self.children[i as int]));
                assert(decreases_to!(*self => self.children));
                assert(self@.children[i as int] == self.children@[i as int]@);
            }
            let kid = self.children[i].xml();
            kids.append(kid.as_str());
            i = i + 1;
        }
        let namespace = escape(self.namespace.as_str());
        let text = escape(self.text.as_str());
        lit("<").concat(self.name.as_str()).concat(" xmlns=\"").concat(namespace.as_str()).concat(
            "\">",
        ).concat(text.as_str()).concat(kids.as_str()).concat("</").concat(
            self.name.as_str(),
        ).concat(">")
    }
}

/// One token of an XML text.
pub enum XmlToken {
    /// An element begins: its namespace, empty where it has none, and its local name.
    Start(String, String),
    End,
    Text(String),
    Entity(String),
    DocType,
    /// A comment, a declaration or a processing instruction.
    Other,
    Malformed,
}

/// The model of an [`XmlToken`].
pub enum Token {
    Start(Seq<char>, Seq<char>),
    End,
    Text(Seq<char>),
    Entity(Seq<char>),
    DocType,
    Other,
    Malformed,
}

impl View for XmlToken {
    type V = Token;

    open spec fn view(&self) -> Token {
        match self {
            XmlToken::Start(ns, name) => Token::Start(ns@, name@),
            XmlToken::End => Token::End,
            XmlToken::Text(s) => Token::Text(s@),
            XmlToken::Entity(s) => Token::Entity(s@),
            XmlToken::DocType => Token::DocType,
            XmlToken::Other => Token::Other,
            XmlToken::Malformed => Token::Malformed,
        }
    }
}

/// The namespace-aware reader of `quick_xml`.
#[verifier::external_type_specification]
#[verifier::external_body]
#[verifier::reject_recursive_types(R)]
pub struct ExNsReader<R>(quick_xml::NsReader<R>);

/// What a reader has still to give: its tokens up to the end of the text, or up to and with the
/// first malformed one.
pub uninterp spec fn tokens_left(reader: quick_xml::NsReader<&[u8]>) -> Seq<Token>;

/// The tokens of a text, up to its end, or up to and with the first malformed one.
pub uninterp spec fn xml_tokens(xml: Seq<char>) -> Seq<Token>;

/// Calls `quick_xml::NsReader::from_str` and sets the reader to give an empty element as its start
/// and its end. What it will give depends on the text alone; of a text that was written from a
/// tree it is the tokens that the tree stands for.
#[verifier::external_body]
fn open_xml<'a>(xml: &'a str) -> (r: quick_xml::NsReader<&'a [u8]>)
    ensures
        tokens_left(r) == xml_tokens(xml@),
        forall|t: Tree|
            plain_tree(t) && within_levels(t, MAX_NESTING as int) && xml@ == #[trigger] written(t)
                ==> stands_for(tokens_left(r), t),
{
    let mut reader = quick_xml::NsReader::from_str(xml);
    reader.config_mut().expand_empty_elements = true;
    reader
}

/// Calls `quick_xml::NsReader::read_resolved_event`: the next token, `None` at the end of the
/// text. A text stands with its line ends as XML 1.0 reads them.
#[verifier::external_body]
fn next_token(reader: &mut quick_xml::NsReader<&[u8]>) -> (r: Option<XmlToken>)
    ensures
        match r {
            Some(t) => tokens_left(*old(reader)).len() > 0 && t@ == tokens_left(*old(reader))[0]
                && (t@ != Token::Malformed ==> tokens_left(*final(reader)) == tokens_left(
                *old(reader),
            ).skip(1)),
            None => tokens_left(*old(reader)).len() == 0,
        },
{
    let Ok((bound, event)) = reader.read_resolved_event() else {
        return Some(XmlToken::Malformed);
    };
    let namespace = if let ResolveResult::Bound(n) = bound { n.as_ref().into() } else { String::new() };
    Some(match event {
        Event::Start(e) => XmlToken::Start(namespace, e.local_name().as_ref().into()),
        Event::End(_) => XmlToken::End,
        Event::Text(e) => XmlToken::Text(e.xml_content(Implicit1_0).into()),
        Event::CData(e) => XmlToken::Text(e.xml_content(Implicit1_0).into()),
        Event::GeneralRef(e) => XmlToken::Entity(e.as_ref().into()),
        Event::DocType(_) => XmlToken::DocType,
        Event::Eof => return None,
        _ => XmlToken::Other,
    })
}

/// The most elements that a response may hold.
pub const MAX_ELEMENTS: usize = 150000;

/// The deepest nesting that a response may have.
pub const MAX_NESTING: usize = 64;

/// The open elements with more text in the innermost.
pub open spec fn add_text(stack: Seq<Tree>, text: Seq<char>) -> Seq<Tree> {
    if stack.len() == 0 {
        stack
    } else {
        stack.drop_last().push(Tree { text: stack.last().text + text, ..stack.last() })
    }
}

/// The open elements with one more child of the innermost.
pub open spec fn add_child(stack: Seq<Tree>, child: Tree) -> Seq<Tree> {
    stack.drop_last().push(Tree { children: stack.last().children.push(child), ..stack.last() })
}

/// What the tokens make of the elements that are open, the root that is closed and the elements
/// counted so far: the tree, or why there is none.
pub open spec fn parse_from(
    tokens: Seq<Token>,
    stack: Seq<Tree>,
    root: Option<Tree>,
    count: nat,
) -> std::result::Result<Tree, Seq<char>>
    decreases tokens.len(),
{
    if tokens.len() == 0 {
        if stack.len() > 0 {
            Err("Incomplete WebDAV XML."@)
        } else {
            match root {
                Some(t) => Ok(t),
                None => Err("Empty WebDAV XML."@),
            }
        }
    } else {
        let rest = tokens.skip(1);
        match tokens[0] {
            Token::Start(namespace, name) => if count + 1 > MAX_ELEMENTS || stack.len()
                > MAX_NESTING {
                Err("WebDAV metadata exceeds safety limits."@)
            } else {
                let t = Tree { namespace, name, text: Seq::empty(), children: Seq::empty() };
                parse_from(rest, stack.push(t), root, count + 1)
            },
            Token::End => if stack.len() == 0 {
                Err("Malformed XML nesting."@)
            } else if stack.len() > 1 {
                parse_from(rest, add_child(stack.drop_last(), stack.last()), root, count)
            } else if root is Some {
                Err("Multiple XML roots."@)
            } else {
                parse_from(rest, Seq::empty(), Some(stack.last()), count)
            },
            Token::Text(text) => parse_from(rest, add_text(stack, text), root, count),
            Token::Entity(name) => match entity_value(name) {
                Some(text) => parse_from(rest, add_text(stack, text), root, count),
                None => Err("Unknown XML entity."@),
            },
            Token::DocType => Err("WebDAV XML document types are not allowed."@),
            Token::Other => parse_from(rest, stack, root, count),
            Token::Malformed => Err("Malformed WebDAV XML."@),
        }
    }
}

/// What a text is as a tree of properties, or why it is none.
pub open spec fn parsed(tokens: Seq<Token>) -> std::result::Result<Tree, Seq<char>> {
    parse_from(tokens, Seq::empty(), None, 0)
}

fn push_text(stack: &mut Vec<Property>, text: &str)
    ensures
        trees(final(stack)@) == add_text(trees(old(stack)@), text@),
{
    let n: usize = stack.len();
    let ghost before = stack@;
    if n > 0 {
        stack[n - 1].text.append(text);
        proof {
            let top = before[n - 1];
            let now = stack@[n - 1];
            assert(now@.children =~= top@.children);
            assert(now@ == (Tree { text: top@.text + text@, ..top@ }));
            assert(trees(stack@) =~= add_text(trees(before), text@));
        }
    } else {
        proof {
            assert(trees(stack@) =~= add_text(trees(before), text@));
        }
    }
}

fn push_child(stack: &mut Vec<Property>, child: Property)
    requires
        old(stack)@.len() > 0,
    ensures
        trees(final(stack)@) == add_child(trees(old(stack)@), child@),
{
    let n: usize = stack.len();
    let ghost before = stack@;
    stack[n - 1].children.push(child);
    proof {
        let top = before[n - 1];
        let now = stack@[n - 1];
        assert(now.children@ == top.children@.push(child));
        assert(now@.children =~= top@.children.push(child@));
        assert(now@ == (Tree { children: top@.children.push(child@), ..top@ }));
        assert(trees(stack@) =~= add_child(trees(before), child@));
    }
}

/// The model of an optional element that is owned.
pub open spec fn own_tree(o: Option<Property>) -> Option<Tree> {
    match o {
        Some(p) => Some(p@),
        None => None,
    }
}

/// The models of a list of tokens.
pub open spec fn token_views(v: Seq<XmlToken>) -> Seq<Token> {
    v.map_values(|t: XmlToken| t@)
}

/// The tokens of a text.
fn read_tokens(xml: &str) -> (r: Vec<XmlToken>)
    ensures
        token_views(r@) == xml_tokens(xml@) || (exists|k: int|
            0 < k <= xml_tokens(xml@).len() && token_views(r@) == #[trigger] xml_tokens(xml@).take(k)
                && xml_tokens(xml@)[k - 1] == Token::Malformed),
        forall|t: Tree|
            plain_tree(t) && within_levels(t, MAX_NESTING as int) && xml@ == #[trigger] written(t)
                ==> stands_for(xml_tokens(xml@), t),
{
    let mut reader = open_xml(xml);
    let mut out: Vec<XmlToken> = Vec::new();
    let ghost all = xml_tokens(xml@);
    proof {
        assert(all.skip(0) == all);
        assert(token_views(out@) =~= all.take(0));
    }
    loop
        invariant
            all == xml_tokens(xml@),
            forall|t: Tree|
                plain_tree(t) && within_levels(t, MAX_NESTING as int) && xml@ == #[trigger] written(
                    t,
                ) ==> stands_for(all, t),
            out@.len() <= all.len(),
            token_views(out@) == all.take(out@.len() as int),
            tokens_left(reader) == all.skip(out@.len() as int),
        decreases tokens_left(reader).len(),
    {
        let ghost n = out@.len() as int;
        match next_token(&mut reader) {
            Some(token) => {
                let stop = matches!(token, XmlToken::Malformed);
                proof {
                    assert(all.skip(n)[0] == all[n]);
                    assert(all.skip(n).skip(1) == all.skip(n + 1));
                }
                out.push(token);
                proof {
                    assert(token_views(out@) =~= all.take(n + 1));
                }
                if stop {
                    return out;
                }
            },
            None => {
                proof {
                    assert(all.take(n) == all);
                }
                return out;
            },
        }
    }
}

/// Nothing behind a malformed token changes what a text is.
proof fn malformed_ends(
    tokens: Seq<Token>,
    k: int,
    stack: Seq<Tree>,
    root: Option<Tree>,
    count: nat,
)
    requires
        0 < k <= tokens.len(),
        tokens[k - 1] == Token::Malformed,
    ensures
        parse_from(tokens, stack, root, count) == parse_from(tokens.take(k), stack, root, count),
    decreases k,
{
    assert(tokens.take(k)[0] == tokens[0]);
    assert(tokens.take(k).skip(1) == tokens.skip(1).take(k - 1));
    if k > 1 {
        let rest = tokens.skip(1);
        match tokens[0] {
            Token::Start(namespace, name) => {
                let t = Tree { namespace, name, text: Seq::empty(), children: Seq::empty() };
                malformed_ends(rest, k - 1, stack.push(t), root, count + 1);
            },
            Token::End => {
                if stack.len() > 1 {
                    malformed_ends(
                        rest,
                        k - 1,
                        add_child(stack.drop_last(), stack.last()),
                        root,
                        count,
                    );
                } else if stack.len() == 1 {
                    malformed_ends(rest, k - 1, Seq::empty(), Some(stack.last()), count);
                }
            },
            Token::Text(text) => {
                malformed_ends(rest, k - 1, add_text(stack, text), root, count);
            },
            Token::Entity(name) => {
                if let Some(text) = entity_value(name) {
                    malformed_ends(rest, k - 1, add_text(stack, text), root, count);
                }
            },
            Token::Other => {
                malformed_ends(rest, k - 1, stack, root, count);
            },
            _ => {},
        }
    }
}

/// Build the tree that a list of tokens makes.
pub fn build(tokens: Vec<XmlToken>) -> (r: Result<Property>)
    ensures
        match parsed(token_views(tokens@)) {
            Ok(t) => r is Ok && r->Ok_0@ == t,
            Err(m) => fails(r, m),
        },
{
    let mut stack: Vec<Property> = Vec::new();
    let mut root: Option<Property> = None;
    let mut count: usize = 0;
    let ghost all = token_views(tokens@);
    let ghost given = tokens@;
    proof {
        assert(trees(stack@) =~= Seq::<Tree>::empty());
        assert(all.skip(0) == all);
    }
    for token in it: tokens
        invariant
            it.seq() == given,
            all == token_views(given),
            count <= MAX_ELEMENTS,
            parse_from(all.skip(it.index()), trees(stack@), own_tree(root), count as nat) == parsed(
                all,
            ),
    {
        let ghost before = trees(stack@);
        proof {
            assert(all.skip(it.index())[0] == token@);
            assert(all.skip(it.index()).skip(1) == all.skip(it.index() + 1));
        }
        match token {
            XmlToken::Start(namespace, name) => {
                count = count + 1;
                if count > MAX_ELEMENTS || stack.len() > MAX_NESTING {
                    return Err(other("WebDAV metadata exceeds safety limits."));
                }
                let p = Property { namespace, name, text: String::new(), children: Vec::new() };
                proof {
                    assert(p@.children =~= Seq::<Tree>::empty());
                }
                stack.push(p);
                proof {
                    assert(trees(stack@) =~= before.push(p@));
                }
            },
            XmlToken::End => {
                let p = match stack.pop() {
                    Some(p) => p,
                    None => {
                        return Err(other("Malformed XML nesting."));
                    },
                };
                proof {
                    assert(trees(stack@) =~= before.drop_last());
                    assert(before.last() == p@);
                }
                if stack.len() > 0 {
                    push_child(&mut stack, p);
                } else if root.is_some() {
                    return Err(other("Multiple XML roots."));
                } else {
                    root = Some(p);
                    proof {
                        assert(trees(stack@) =~= Seq::<Tree>::empty());
                    }
                }
            },
            XmlToken::Text(text) => {
                push_text(&mut stack, text.as_str());
            },
            XmlToken::Entity(name) => {
                let value = match resolve_entity(name.as_str()) {
                    Some(value) => value,
                    None => {
                        return Err(other("Unknown XML entity."));
                    },
                };
                push_text(&mut stack, value.as_str());
            },
            XmlToken::DocType => {
                return Err(other("WebDAV XML document types are not allowed."));
            },
            XmlToken::Other => {},
            XmlToken::Malformed => {
                return Err(other("Malformed WebDAV XML."));
            },
        }
    }
    proof {
        assert(all.skip(all.len() as int).len() == 0);
    }
    if stack.len() > 0 {
        return Err(other("Incomplete WebDAV XML."));
    }
    match root {
        Some(p) => Ok(p),
        None => Err(other("Empty WebDAV XML.")),
    }
}

/// Read a response as a tree of properties. What a property is written as reads back as that
/// property, where its names are plain and it is no larger and no deeper than a response may be.
pub fn parse(xml: &str) -> (r: Result<Property>)
    ensures
        match parsed(xml_tokens(xml@)) {
            Ok(t) => r is Ok && r->Ok_0@ == t,
            Err(m) => fails(r, m),
        },
        forall|t: Tree|
            plain_tree(t) && within_levels(t, MAX_NESTING as int) && element_count(t)
                <= MAX_ELEMENTS && xml@ == #[trigger] written(t) ==> r is Ok && r->Ok_0@ == t,
{
    let tokens = read_tokens(xml);
    proof {
        let all = xml_tokens(xml@);
        if token_views(tokens@) != all {
            let k = choose|k: int|
                0 < k <= all.len() && token_views(tokens@) == #[trigger] all.take(k) && all[k - 1]
                    == Token::Malformed;
            malformed_ends(all, k, Seq::empty(), None, 0);
        }
        assert forall|t: Tree|
            plain_tree(t) && within_levels(t, MAX_NESTING as int) && element_count(t)
                <= MAX_ELEMENTS && xml@ == #[trigger] written(t) implies parsed(all) == Ok::<
            Tree,
            Seq<char>,
        >(t) by {
            assert(stands_for(all, t));
            let spell = choose|spell: spec_fn(Seq<char>) -> Seq<Token>|
                (forall|s: Seq<char>| spelled(#[trigger] spell(s)) == Some(s)) && all
                    == #[trigger] tokens_of(t, spell);
            trees_are_read_back(t, spell);
        }
    }
    build(tokens)
}

/// How many elements a tree holds, itself among them.
pub open spec fn element_count(t: Tree) -> nat
    decreases t, t.children.len() + 1,
{
    1 + child_count(t, t.children.len() as int)
}

/// How many elements the first `count` children hold.
pub open spec fn child_count(t: Tree, count: int) -> nat
    decreases t, count,
{
    if count <= 0 || count > t.children.len() {
        0
    } else {
        child_count(t, count - 1) + element_count(t.children[count - 1])
    }
}

/// How many elements the open elements hold.
pub open spec fn stack_count(stack: Seq<Tree>) -> nat
    decreases stack.len(),
{
    if stack.len() == 0 {
        0
    } else {
        stack_count(stack.drop_last()) + element_count(stack.last())
    }
}

proof fn child_count_extends(a: Tree, b: Tree, count: int)
    requires
        0 <= count <= a.children.len(),
        a.children.len() <= b.children.len(),
        forall|i: int| 0 <= i < count ==> a.children[i] == b.children[i],
    ensures
        child_count(a, count) == child_count(b, count),
    decreases count,
{
    if count > 0 {
        child_count_extends(a, b, count - 1);
    }
}

proof fn add_child_counts(stack: Seq<Tree>, child: Tree)
    requires
        stack.len() > 0,
    ensures
        stack_count(add_child(stack, child)) == stack_count(stack) + element_count(child),
{
    let top = stack.last();
    let now = Tree { children: top.children.push(child), ..top };
    assert(add_child(stack, child).drop_last() == stack.drop_last());
    child_count_extends(top, now, top.children.len() as int);
}

proof fn add_text_counts(stack: Seq<Tree>, text: Seq<char>)
    ensures
        stack_count(add_text(stack, text)) == stack_count(stack),
{
    if stack.len() > 0 {
        let top = stack.last();
        let now = Tree { text: top.text + text, ..top };
        assert(add_text(stack, text).drop_last() == stack.drop_last());
        child_count_extends(top, now, top.children.len() as int);
    }
}

proof fn parse_counts(tokens: Seq<Token>, stack: Seq<Tree>, root: Option<Tree>, count: nat)
    requires
        stack_count(stack) + (match root {
            Some(t) => element_count(t),
            None => 0,
        }) == count,
        count <= MAX_ELEMENTS,
    ensures
        parse_from(tokens, stack, root, count) matches Ok(t) ==> element_count(t) <= MAX_ELEMENTS,
    decreases tokens.len(),
{
    if tokens.len() > 0 {
        let rest = tokens.skip(1);
        match tokens[0] {
            Token::Start(namespace, name) => {
                let t = Tree { namespace, name, text: Seq::empty(), children: Seq::empty() };
                assert(stack.push(t).drop_last() == stack);
                assert(element_count(t) == 1) by {
                    reveal_with_fuel(child_count, 2);
                }
                if !(count + 1 > MAX_ELEMENTS || stack.len() > MAX_NESTING) {
                    parse_counts(rest, stack.push(t), root, count + 1);
                }
            },
            Token::End => {
                if stack.len() > 1 {
                    add_child_counts(stack.drop_last(), stack.last());
                    parse_counts(rest, add_child(stack.drop_last(), stack.last()), root, count);
                } else if stack.len() == 1 && root is None {
                    assert(stack.drop_last().len() == 0);
                    reveal_with_fuel(stack_count, 2);
                    parse_counts(rest, Seq::empty(), Some(stack.last()), count);
                }
            },
            Token::Text(text) => {
                add_text_counts(stack, text);
                parse_counts(rest, add_text(stack, text), root, count);
            },
            Token::Entity(name) => {
                if let Some(text) = entity_value(name) {
                    add_text_counts(stack, text);
                    parse_counts(rest, add_text(stack, text), root, count);
                }
            },
            Token::Other => {
                parse_counts(rest, stack, root, count);
            },
            _ => {},
        }
    }
}

/// Metadata stays within its safety limits: a tree that is read never holds more elements than
/// are allowed, whatever the server sends.
pub proof fn metadata_is_bounded(tokens: Seq<Token>)
    ensures
        parsed(tokens) matches Ok(t) ==> element_count(t) <= MAX_ELEMENTS,
{
    parse_counts(tokens, Seq::empty(), None, 0);
}

/// A text with a document type is never read: where such a token stands before any error, there
/// is no tree.
pub proof fn document_types_are_refused(
    tokens: Seq<Token>,
    stack: Seq<Tree>,
    root: Option<Tree>,
    count: nat,
    k: int,
)
    requires
        0 <= k < tokens.len(),
        tokens[k] == Token::DocType,
    ensures
        parse_from(tokens, stack, root, count) is Err,
    decreases k,
{
    if k > 0 {
        let rest = tokens.skip(1);
        assert(rest[k - 1] == tokens[k]);
        match tokens[0] {
            Token::Start(namespace, name) => {
                let t = Tree { namespace, name, text: Seq::empty(), children: Seq::empty() };
                document_types_are_refused(rest, stack.push(t), root, count + 1, k - 1);
            },
            Token::End => {
                if stack.len() > 1 {
                    document_types_are_refused(
                        rest,
                        add_child(stack.drop_last(), stack.last()),
                        root,
                        count,
                        k - 1,
                    );
                } else if stack.len() == 1 {
                    document_types_are_refused(
                        rest,
                        Seq::empty(),
                        Some(stack.last()),
                        count,
                        k - 1,
                    );
                }
            },
            Token::Text(text) => {
                document_types_are_refused(rest, add_text(stack, text), root, count, k - 1);
            },
            Token::Entity(name) => {
                if let Some(text) = entity_value(name) {
                    document_types_are_refused(rest, add_text(stack, text), root, count, k - 1);
                }
            },
            Token::Other => {
                document_types_are_refused(rest, stack, root, count, k - 1);
            },
            _ => {},
        }
    }
}

/// The text that one token adds to the element that holds it; `None` where it adds none.
pub open spec fn token_text(token: Token) -> Option<Seq<char>> {
    match token {
        Token::Text(text) => Some(text),
        Token::Entity(name) => entity_value(name),
        _ => None,
    }
}

/// The text that tokens add up to; `None` where one of them adds none.
pub open spec fn spelled(pieces: Seq<Token>) -> Option<Seq<char>>
    decreases pieces.len(),
{
    if pieces.len() == 0 {
        Some(Seq::empty())
    } else {
        match (token_text(pieces[0]), spelled(pieces.skip(1))) {
            (Some(first), Some(rest)) => Some(first + rest),
            _ => None,
        }
    }
}

/// The tokens that a tree stands for: its start, its text in pieces, its children and its end.
pub open spec fn tokens_of(t: Tree, spell: spec_fn(Seq<char>) -> Seq<Token>) -> Seq<Token>
    decreases t, t.children.len() + 1,
{
    seq![Token::Start(t.namespace, t.name)] + spell(t.text) + child_tokens(
        t,
        t.children.len() as int,
        spell,
    ) + seq![Token::End]
}

/// The tokens that the first `count` children stand for.
pub open spec fn child_tokens(
    t: Tree,
    count: int,
    spell: spec_fn(Seq<char>) -> Seq<Token>,
) -> Seq<Token>
    decreases t, count,
{
    if count <= 0 || count > t.children.len() {
        Seq::empty()
    } else {
        child_tokens(t, count - 1, spell) + tokens_of(t.children[count - 1], spell)
    }
}

/// Whether no element of a tree has more than that many elements above it.
pub open spec fn within_levels(t: Tree, levels: int) -> bool
    decreases t,
{
    levels >= 0 && forall|i: int|
        0 <= i < t.children.len() ==> within_levels(#[trigger] t.children[i], levels - 1)
}

/// Whether tokens are those that a tree stands for, its texts in pieces that add up to them.
pub open spec fn stands_for(tokens: Seq<Token>, t: Tree) -> bool {
    exists|spell: spec_fn(Seq<char>) -> Seq<Token>|
        (forall|s: Seq<char>| spelled(#[trigger] spell(s)) == Some(s)) && tokens
            == #[trigger] tokens_of(t, spell)
}

/// A character that a plain name may hold.
pub open spec fn name_char(c: char) -> bool {
    ('a' <= c <= 'z') || ('A' <= c <= 'Z') || ('0' <= c <= '9') || c == '_' || c == '-' || c == '.'
        || c > '\u{7f}'
}

/// Whether every element of a tree has a plain name, without a prefix, and a namespace that stands
/// in an attribute as it is.
pub open spec fn plain_tree(t: Tree) -> bool
    decreases t,
{
    &&& t.name.len() > 0
    &&& forall|i: int| 0 <= i < t.name.len() ==> name_char(#[trigger] t.name[i])
    &&& escaped(t.namespace) == t.namespace
    &&& forall|i: int| 0 <= i < t.children.len() ==> plain_tree(#[trigger] t.children[i])
}

/// A text in pieces is read into the innermost element.
proof fn pieces_add_up(
    pieces: Seq<Token>,
    rest: Seq<Token>,
    stack: Seq<Tree>,
    root: Option<Tree>,
    count: nat,
)
    requires
        spelled(pieces) is Some,
        stack.len() > 0,
    ensures
        parse_from(pieces + rest, stack, root, count) == parse_from(
            rest,
            add_text(stack, spelled(pieces)->0),
            root,
            count,
        ),
    decreases pieces.len(),
{
    if pieces.len() == 0 {
        assert(pieces + rest =~= rest);
        assert(stack.last().text + Seq::<char>::empty() =~= stack.last().text);
        assert(add_text(stack, Seq::empty()) =~= stack);
    } else {
        let first = token_text(pieces[0])->0;
        let more = spelled(pieces.skip(1))->0;
        assert((pieces + rest)[0] == pieces[0]);
        assert((pieces + rest).skip(1) =~= pieces.skip(1) + rest);
        pieces_add_up(pieces.skip(1), rest, add_text(stack, first), root, count);
        assert(stack.last().text + first + more =~= stack.last().text + (first + more));
        assert(add_text(add_text(stack, first), more) =~= add_text(stack, first + more));
    }
}

/// The first children of an element are read into it, one behind the other.
proof fn children_are_read(
    t: Tree,
    k: int,
    spell: spec_fn(Seq<char>) -> Seq<Token>,
    rest: Seq<Token>,
    stack: Seq<Tree>,
    root: Option<Tree>,
    count: nat,
)
    requires
        forall|s: Seq<char>| spelled(#[trigger] spell(s)) == Some(s),
        0 <= k <= t.children.len(),
        stack.len() > 0,
        stack.last() == (Tree { children: Seq::empty(), ..t }),
        count + child_count(t, k) <= MAX_ELEMENTS,
        forall|i: int|
            0 <= i < k ==> within_levels(#[trigger] t.children[i], MAX_NESTING - stack.len()),
    ensures
        parse_from(child_tokens(t, k, spell) + rest, stack, root, count) == parse_from(
            rest,
            stack.drop_last().push(Tree { children: t.children.take(k), ..t }),
            root,
            count + child_count(t, k),
        ),
    decreases t, k,
{
    if k == 0 {
        assert(child_tokens(t, k, spell) + rest =~= rest);
        assert(t.children.take(0) =~= Seq::<Tree>::empty());
        assert(stack.drop_last().push(stack.last()) =~= stack);
    } else {
        let kid = t.children[k - 1];
        let own = tokens_of(kid, spell);
        let now = stack.drop_last().push(Tree { children: t.children.take(k - 1), ..t });
        assert(child_tokens(t, k, spell) + rest =~= child_tokens(t, k - 1, spell) + (own + rest));
        children_are_read(t, k - 1, spell, own + rest, stack, root, count);
        tree_is_read(kid, spell, rest, now, root, count + child_count(t, k - 1));
        assert(t.children.take(k - 1).push(kid) =~= t.children.take(k));
        assert(add_child(now, kid) =~= stack.drop_last().push(
            Tree { children: t.children.take(k), ..t },
        ));
    }
}

/// A tree is read from the tokens that it stands for, wherever they stand.
proof fn tree_is_read(
    t: Tree,
    spell: spec_fn(Seq<char>) -> Seq<Token>,
    rest: Seq<Token>,
    stack: Seq<Tree>,
    root: Option<Tree>,
    count: nat,
)
    requires
        forall|s: Seq<char>| spelled(#[trigger] spell(s)) == Some(s),
        count + element_count(t) <= MAX_ELEMENTS,
        within_levels(t, MAX_NESTING - stack.len()),
        stack.len() == 0 ==> root is None,
    ensures
        parse_from(tokens_of(t, spell) + rest, stack, root, count) == if stack.len() > 0 {
            parse_from(rest, add_child(stack, t), root, count + element_count(t))
        } else {
            parse_from(rest, Seq::empty(), Some(t), count + element_count(t))
        },
    decreases t, t.children.len() + 1,
{
    let n = t.children.len() as int;
    let pieces = spell(t.text);
    let kids = child_tokens(t, n, spell);
    let end = seq![Token::End] + rest;
    let all = tokens_of(t, spell) + rest;
    let bare = Tree {
        namespace: t.namespace,
        name: t.name,
        text: Seq::empty(),
        children: Seq::empty(),
    };
    let opened = stack.push(bare);
    let told = stack.push(Tree { children: Seq::empty(), ..t });
    assert(all[0] == Token::Start(t.namespace, t.name));
    assert(all.skip(1) =~= pieces + (kids + end));
    assert(spelled(pieces) == Some(t.text));
    pieces_add_up(pieces, kids + end, opened, root, count + 1);
    assert(bare.text + t.text =~= t.text);
    assert(add_text(opened, t.text) =~= told);
    children_are_read(t, n, spell, end, told, root, count + 1);
    assert(t.children.take(n) =~= t.children);
    let closed = told.drop_last().push(t);
    assert(closed =~= stack.push(t));
    assert(closed.drop_last() =~= stack);
    assert(end[0] == Token::End);
    assert(end.skip(1) =~= rest);
}

/// What a tree is written as reads back as that tree: the tokens that it stands for, with every
/// text in whatever pieces add up to it, build the tree again, as long as it is no larger and no
/// deeper than a response may be.
pub proof fn trees_are_read_back(t: Tree, spell: spec_fn(Seq<char>) -> Seq<Token>)
    requires
        forall|s: Seq<char>| spelled(#[trigger] spell(s)) == Some(s),
        element_count(t) <= MAX_ELEMENTS,
        within_levels(t, MAX_NESTING as int),
    ensures
        parsed(tokens_of(t, spell)) == Ok::<Tree, Seq<char>>(t),
{
    tree_is_read(t, spell, Seq::empty(), Seq::empty(), None, 0);
    assert(tokens_of(t, spell) + Seq::<Token>::empty() =~= tokens_of(t, spell));
}

} // verus!
