//! The writer: renders a document tree as text.
//!
//! Arrays are written on one line. Objects are written one entry to a
//! line, the entries indented one step deeper than the object itself. The
//! writer only builds the text; whoever owns a file or a terminal takes the
//! text from [`RsonWriter::flush`] and writes it out.

use vstd::prelude::*;
use crate::parser::number::Number;
use crate::parser::number::NumberView;
use crate::parser::number::number_text;
use crate::rnodes::rnode::RNode;
use crate::rnodes::rnode::RNodeView;
use crate::rnodes::rnode::entries_view;
use crate::rnodes::rnode::lemma_array_view;
use crate::rnodes::rnode::lemma_object_view;
use crate::rnodes::rnode::nodes_view;
use crate::rnodes::rnode_array::RNodeArray;
use crate::rnodes::rnode_bool::RNodeBool;
use crate::rnodes::rnode_double::RNodeDouble;
use crate::rnodes::rnode_null::RNodeNull;
use crate::rnodes::rnode_object::RNodeObject;
use crate::rnodes::rnode_string::RNodeString;
use crate::utils::string_utils::StringBuilder;
use crate::visitor::visitor::Visitor;

verus! {

/// `count` spaces.
pub open spec fn spaces(count: nat) -> Seq<char> {
    Seq::new(count, |i: int| ' ')
}

/// The indentation one step deeper than `depth`; it stops at the greatest
/// `u32`.
pub open spec fn deeper(depth: nat, step: nat) -> nat {
    if depth + step > u32::MAX {
        u32::MAX as nat
    } else {
        depth + step
    }
}

/// The text of the first `count` of the items of an array, with `, `
/// after each item but the array's last.
pub open spec fn render_items(items: Seq<RNodeView>, step: nat, depth: nat, count: nat) -> Seq<char>
    decreases items, count,
{
    if count == 0 || count > items.len() {
        Seq::empty()
    } else {
        render_items(items, step, depth, (count - 1) as nat) + render(
            items[count - 1],
            step,
            depth,
        ) + (if count < items.len() {
            seq![',', ' ']
        } else {
            Seq::<char>::empty()
        })
    }
}

/// The text of the first `count` of the entries of an object: each
/// indented by `depth`, its key in quotes, `: ` and its value, with a comma
/// after each entry but the object's last, and a line end.
pub open spec fn render_entries(
    entries: Seq<(Seq<char>, RNodeView)>,
    step: nat,
    depth: nat,
    count: nat,
) -> Seq<char>
    decreases entries, count,
{
    if count == 0 || count > entries.len() {
        Seq::empty()
    } else {
        render_entries(entries, step, depth, (count - 1) as nat) + spaces(depth) + seq!['"']
            + entries[count - 1].0 + seq!['"', ':', ' '] + render(entries[count - 1].1, step, depth)
            + (if count < entries.len() {
            seq![',', '\n']
        } else {
            seq!['\n']
        })
    }
}

/// The text of a document that stands at the indentation `depth`, where
/// each object indents its entries by `step` more.
pub open spec fn render(node: RNodeView, step: nat, depth: nat) -> Seq<char>
    decreases node, 0nat,
{
    match node {
        RNodeView::Array(items) => seq!['['] + render_items(items, step, depth, items.len())
            + seq![']'],
        RNodeView::Bool(b) => if b {
            seq!['t', 'r', 'u', 'e']
        } else {
            seq!['f', 'a', 'l', 's', 'e']
        },
        RNodeView::Double(d) => number_text(d),
        RNodeView::Null => seq!['n', 'u', 'l', 'l'],
        RNodeView::Object(entries) => seq!['{', '\n'] + render_entries(
            entries,
            step,
            deeper(depth, step),
            entries.len(),
        ) + spaces(depth) + seq!['}', '\n'],
        RNodeView::String(text) => seq!['"'] + text + seq!['"'],
    }
}

/// A text with its end brought to an empty line: a text that ends in no
/// line end gets two, one that ends in a single line end gets one more, and
/// an empty text stays empty.
pub open spec fn with_final_blank_line(text: Seq<char>) -> Seq<char> {
    if text.len() == 0 {
        text
    } else if text.last() != '\n' {
        text + seq!['\n', '\n']
    } else if text.len() < 2 || text[text.len() - 2] != '\n' {
        text.push('\n')
    } else {
        text
    }
}

/// A text that is not empty ends, once its end is brought to an empty
/// line, in two line ends, and bringing its end there a second time changes
/// nothing.
pub proof fn law_final_blank_line(text: Seq<char>)
    requires
        text.len() > 0,
    ensures
        with_final_blank_line(text).len() >= 2,
        with_final_blank_line(text)[with_final_blank_line(text).len() - 1] == '\n',
        with_final_blank_line(text)[with_final_blank_line(text).len() - 2] == '\n',
        with_final_blank_line(with_final_blank_line(text)) == with_final_blank_line(text),
        text.is_prefix_of(with_final_blank_line(text)),
{
}

/// Appends the text of `n` to `builder`.
fn append_number(builder: &mut StringBuilder, n: &Number)
    ensures
        final(builder)@ == old(builder)@ + number_text(n@),
    decreases n,
{
    let ghost start = builder@;
    if n.negative {
        builder.append_char('-');
    }
    builder.append_string(&n.int_part);
    if !n.frac_part.as_str().is_empty() || (!n.negative && n.int_part.as_str().is_empty()) {
        builder.append_char('.');
        builder.append_string(&n.frac_part);
    }
    let ghost mantissa = builder@;
    match &n.exponent {
        Some(e) => {
            builder.append_char('e');
            append_number(builder, e);
            assert(builder@ =~= mantissa + (seq!['e'] + number_text(e@)));
        },
        None => {
            assert(builder@ =~= mantissa + Seq::<char>::empty());
        },
    }
    assert(builder@ =~= start + number_text(n@));
}

/// Renders documents into a buffer of text.
pub struct RsonWriter {
    pub indent: u32,
    pub cur_indent: u32,
    pub builder: StringBuilder,
}

impl RsonWriter {
    /// A writer with an empty buffer that indents by `indent` spaces a level.
    pub fn new(indent: u32) -> (r: Self)
        ensures
            r.indent == indent,
            r.cur_indent == 0,
            r.builder@ == Seq::<char>::empty(),
    {
        RsonWriter { indent, cur_indent: 0, builder: StringBuilder::new(4096) }
    }

    /// Takes one step of indentation back, if there is one to take back.
    pub fn decrement_indent(&mut self)
        ensures
            final(self).indent == old(self).indent,
            final(self).builder == old(self).builder,
            final(self).cur_indent == if old(self).cur_indent >= old(self).indent {
                old(self).cur_indent - old(self).indent
            } else {
                old(self).cur_indent as int
            },
    {
        if self.cur_indent >= self.indent {
            self.cur_indent = self.cur_indent - self.indent;
        }
    }

    /// Indents one step deeper.
    pub fn increment_indent(&mut self)
        ensures
            final(self).indent == old(self).indent,
            final(self).builder == old(self).builder,
            final(self).cur_indent == deeper(old(self).cur_indent as nat, old(self).indent as nat),
    {
        self.cur_indent = if self.cur_indent > u32::MAX - self.indent {
            u32::MAX
        } else {
            self.cur_indent + self.indent
        };
    }

    /// Appends the current indentation.
    fn insert_indent(&mut self)
        ensures
            final(self).indent == old(self).indent,
            final(self).cur_indent == old(self).cur_indent,
            final(self).builder@ == old(self).builder@ + spaces(old(self).cur_indent as nat),
    {
        let mut i: u32 = 0;
        assert(self.builder@ =~= old(self).builder@ + spaces(0));
        while i < self.cur_indent
            invariant
                i <= self.cur_indent,
                self.indent == old(self).indent,
                self.cur_indent == old(self).cur_indent,
                self.builder@ == old(self).builder@ + spaces(i as nat),
            decreases self.cur_indent - i,
        {
            self.builder.append_char(' ');
            i += 1;
            assert(self.builder@ =~= old(self).builder@ + spaces(i as nat));
        }
    }

    /// Brings the end of the text to one empty line and hands the text
    /// out, or hands out nothing where no text was written.
    pub fn flush(&mut self) -> (r: Option<String>)
        ensures
            final(self).indent == old(self).indent,
            final(self).cur_indent == old(self).cur_indent,
            final(self).builder@ == with_final_blank_line(old(self).builder@),
            old(self).builder@.len() == 0 ==> r is None,
            old(self).builder@.len() > 0 ==> (r matches Some(text) && text@
                == with_final_blank_line(old(self).builder@)),
    {
        if self.builder.empty() {
            return None;
        }
        let len = self.builder.len();
        if let Some(ch) = self.builder.get(len - 1) {
            if *ch != '\n' {
                self.builder.append_char('\n');
                self.builder.append_char('\n');
                assert(self.builder@ =~= old(self).builder@ + seq!['\n', '\n']);
            } else if len < 2 {
                self.builder.append_char('\n');
            } else if let Some(before) = self.builder.get(len - 2) {
                if *before != '\n' {
                    self.builder.append_char('\n');
                }
            }
        }
        Some(self.builder.to_string())
    }

    /// Writes a document whose root is an array, a number or an object,
    /// and says whether it did.
    pub fn write(&mut self, node: &RNode) -> (r: bool)
        ensures
            final(self).indent == old(self).indent,
            final(self).cur_indent == old(self).cur_indent,
            r == (node@ is Array || node@ is Double || node@ is Object),
            r ==> final(self).builder@ == old(self).builder@ + render(
                node@,
                old(self).indent as nat,
                old(self).cur_indent as nat,
            ),
            !r ==> final(self).builder@ == old(self).builder@,
    {
        match node {
            RNode::Array(_) | RNode::Double(_) | RNode::Object(_) => {
                self.write_node(node);
                true
            },
            _ => false,
        }
    }

    /// Appends the text of `node`.
    fn write_node(&mut self, node: &RNode)
        ensures
            final(self).indent == old(self).indent,
            final(self).cur_indent == old(self).cur_indent,
            final(self).builder@ == old(self).builder@ + render(
                node@,
                old(self).indent as nat,
                old(self).cur_indent as nat,
            ),
        decreases *node, 1nat,
    {
        match node {
            RNode::Array(n) => self.write_array(n),
            RNode::Bool(n) => self.write_bool(n),
            RNode::Double(n) => self.write_double(n),
            RNode::Null(n) => self.write_null(n),
            RNode::Object(n) => self.write_object(n),
            RNode::String(n) => self.write_string(n),
        }
    }

    fn write_array(&mut self, node: &RNodeArray)
        ensures
            final(self).indent == old(self).indent,
            final(self).cur_indent == old(self).cur_indent,
            final(self).builder@ == old(self).builder@ + render(
                RNode::Array(*node)@,
                old(self).indent as nat,
                old(self).cur_indent as nat,
            ),
        decreases *node, 0nat,
    {
        let ghost start = self.builder@;
        let ghost items = nodes_view(node.arr@);
        let ghost step = self.indent as nat;
        let ghost depth = self.cur_indent as nat;
        proof {
            lemma_array_view(*node);
        }
        self.builder.append_char('[');
        let len = node.len();
        let mut i: usize = 0;
        assert(self.builder@ =~= start + seq!['['] + render_items(items, step, depth, 0));
        while i < len
            invariant
                i <= len,
                len == node.arr@.len(),
                items == nodes_view(node.arr@),
                self.indent == old(self).indent,
                self.cur_indent == old(self).cur_indent,
                step == self.indent,
                depth == self.cur_indent,
                self.builder@ == start + seq!['['] + render_items(items, step, depth, i as nat),
            decreases len - i,
        {
            let ghost before = self.builder@;
            let opt_subnode = node.get(i);
            match opt_subnode {
                Some(subnode) => {
                    self.write_node(subnode);
                    if i + 1 < len {
                        self.builder.append_str(", ");
                        proof {
                            reveal_strlit(", ");
                            assert(", "@ =~= seq![',', ' ']);
                        }
                    }
                    assert(self.builder@ =~= start + seq!['['] + render_items(
                        items,
                        step,
                        depth,
                        (i + 1) as nat,
                    ));
                },
                None => {},
            }
            i += 1;
        }
        self.builder.append_char(']');
        assert(self.builder@ =~= start + (seq!['['] + render_items(items, step, depth, items.len())
            + seq![']']));
    }

    fn write_bool(&mut self, node: &RNodeBool)
        ensures
            final(self).indent == old(self).indent,
            final(self).cur_indent == old(self).cur_indent,
            final(self).builder@ == old(self).builder@ + render(
                RNode::Bool(*node)@,
                old(self).indent as nat,
                old(self).cur_indent as nat,
            ),
    {
        proof {
            reveal_strlit("true");
            reveal_strlit("false");
            assert("true"@ =~= seq!['t', 'r', 'u', 'e']);
            assert("false"@ =~= seq!['f', 'a', 'l', 's', 'e']);
        }
        if node.value {
            self.builder.append_str("true");
        } else {
            self.builder.append_str("false");
        }
    }

    fn write_double(&mut self, node: &RNodeDouble)
        ensures
            final(self).indent == old(self).indent,
            final(self).cur_indent == old(self).cur_indent,
            final(self).builder@ == old(self).builder@ + render(
                RNode::Double(*node)@,
                old(self).indent as nat,
                old(self).cur_indent as nat,
            ),
    {
        append_number(&mut self.builder, &node.value);
    }

    fn write_null(&mut self, _node: &RNodeNull)
        ensures
            final(self).indent == old(self).indent,
            final(self).cur_indent == old(self).cur_indent,
            final(self).builder@ == old(self).builder@ + render(
                RNodeView::Null,
                old(self).indent as nat,
                old(self).cur_indent as nat,
            ),
    {
        proof {
            reveal_strlit("null");
            assert("null"@ =~= seq!['n', 'u', 'l', 'l']);
        }
        self.builder.append_str("null");
    }

    fn write_object(&mut self, node: &RNodeObject)
        ensures
            final(self).indent == old(self).indent,
            final(self).cur_indent == old(self).cur_indent,
            final(self).builder@ == old(self).builder@ + render(
                RNode::Object(*node)@,
                old(self).indent as nat,
                old(self).cur_indent as nat,
            ),
        decreases *node, 0nat,
    {
        let ghost start = self.builder@;
        let ghost entries = entries_view(node.map@);
        let ghost step = self.indent as nat;
        let ghost depth = self.cur_indent as nat;
        let ghost inner = deeper(depth, step);
        proof {
            lemma_object_view(*node);
            reveal_strlit("{\n");
            reveal_strlit("\": ");
            reveal_strlit(",\n");
            reveal_strlit("}\n");
            assert("{\n"@ =~= seq!['{', '\n']);
            assert("\": "@ =~= seq!['"', ':', ' ']);
            assert(",\n"@ =~= seq![',', '\n']);
            assert("}\n"@ =~= seq!['}', '\n']);
        }
        let outer = self.cur_indent;
        self.builder.append_str("{\n");
        self.increment_indent();
        let objmap = node.get_map();
        let len: usize = objmap.len();
        let mut count: usize = 0;
        assert(self.builder@ =~= start + seq!['{', '\n'] + render_entries(entries, step, inner, 0));
        while count < len
            invariant
                count <= len,
                len == node.map@.len(),
                objmap == &node.map,
                entries == entries_view(node.map@),
                self.indent == old(self).indent,
                self.cur_indent == inner,
                step == self.indent,
                inner == deeper(depth, step),
                self.builder@ == start + seq!['{', '\n'] + render_entries(
                    entries,
                    step,
                    inner,
                    count as nat,
                ),
            decreases len - count,
        {
            let ghost before = self.builder@;
            let ghost key = node.map@[count as int].0@;
            let ghost value = node.map@[count as int].1@;
            assert(entries[count as int] == (key, value));
            proof {
                reveal_strlit("\": ");
                reveal_strlit(",\n");
                assert("\": "@ =~= seq!['"', ':', ' ']);
                assert(",\n"@ =~= seq![',', '\n']);
            }
            self.insert_indent();
            self.builder.append_char('"');
            self.builder.append_string(&objmap[count].0);
            self.builder.append_str("\": ");
            self.write_node(&objmap[count].1);
            assert(self.builder@ =~= before + spaces(inner) + seq!['"'] + key + seq!['"', ':', ' ']
                + render(value, step, inner));
            count += 1;
            if count < len {
                self.builder.append_str(",\n");
            } else {
                self.builder.append_char('\n');
            }
            assert(self.builder@ =~= before + spaces(inner) + seq!['"'] + key + seq!['"', ':', ' ']
                + render(value, step, inner) + (if count < entries.len() {
                seq![',', '\n']
            } else {
                seq!['\n']
            }));
            assert(self.builder@ =~= start + seq!['{', '\n'] + render_entries(
                entries,
                step,
                inner,
                count as nat,
            ));
        }
        self.cur_indent = outer;
        self.insert_indent();
        self.builder.append_str("}\n");
        assert(self.builder@ =~= start + (seq!['{', '\n'] + render_entries(
            entries,
            step,
            inner,
            entries.len(),
        ) + spaces(depth) + seq!['}', '\n']));
    }

    fn write_string(&mut self, node: &RNodeString)
        ensures
            final(self).indent == old(self).indent,
            final(self).cur_indent == old(self).cur_indent,
            final(self).builder@ == old(self).builder@ + render(
                RNode::String(*node)@,
                old(self).indent as nat,
                old(self).cur_indent as nat,
            ),
    {
        let ghost start = self.builder@;
        self.builder.append_char('"');
        self.builder.append_string(node.get_value());
        self.builder.append_char('"');
        assert(self.builder@ =~= start + (seq!['"'] + node.value@ + seq!['"']));
    }
}

impl Visitor for RsonWriter {
    /// A visit appends the text of the node at the current indentation.
    open spec fn visited(before: &Self, node: &RNode, after: &Self) -> bool {
        &&& after.indent == before.indent
        &&& after.cur_indent == before.cur_indent
        &&& after.builder@ == before.builder@ + render(
            node@,
            before.indent as nat,
            before.cur_indent as nat,
        )
    }

    fn visit_array(&mut self, node: &RNodeArray) {
        self.write_array(node)
    }

    fn visit_bool(&mut self, node: &RNodeBool) {
        self.write_bool(node)
    }

    fn visit_double(&mut self, node: &RNodeDouble) {
        self.write_double(node)
    }

    fn visit_null(&mut self, node: &RNodeNull) {
        self.write_null(node)
    }

    fn visit_object(&mut self, node: &RNodeObject) {
        self.write_object(node)
    }

    fn visit_string(&mut self, node: &RNodeString) {
        self.write_string(node)
    }
}

} // verus!
