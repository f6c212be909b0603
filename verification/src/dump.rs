//! Tree-structured text dumps of file contents.
//!
//! Each node is one line: the current indentation prefix, then its title.
//! A leaf's properties follow on lines of their own, under the node.
use vstd::prelude::*;

use crate::encoding::win1252_decoded;
use crate::params::{ParamEntry, ParameterCollection};

verus! {

/// Options for controlling dump output.
#[derive(Clone, Copy, Debug)]
pub struct DumpOptions {
    /// Show all parameter keys in the output.
    pub show_keys: bool,
}

/// A builder for tree-structured output.
pub struct TreeBuilder {
    output: String,
    /// One flag per nesting level: whether more siblings follow.
    indent_stack: Vec<bool>,
    options: DumpOptions,
}

/// The piece a nesting level adds to continuation lines.
pub open spec fn cont_piece(has_more: bool) -> Seq<char> {
    if has_more {
        "│   "@
    } else {
        "    "@
    }
}

/// The prefix of continuation (property) lines.
pub open spec fn continuation(stack: Seq<bool>) -> Seq<char>
    decreases stack.len(),
{
    if stack.len() == 0 {
        Seq::empty()
    } else {
        continuation(stack.drop_last()) + cont_piece(stack.last())
    }
}

/// The prefix of a node line: continuation pieces for the outer levels and
/// a branch for the innermost.
pub open spec fn node_prefix(stack: Seq<bool>) -> Seq<char> {
    if stack.len() == 0 {
        Seq::empty()
    } else {
        continuation(stack.drop_last()) + if stack.last() {
            "├── "@
        } else {
            "└── "@
        }
    }
}

/// Property lines: `cont    name = value` each.
pub open spec fn prop_lines(cont: Seq<char>, props: Seq<(Seq<char>, Seq<char>)>) -> Seq<char>
    decreases props.len(),
{
    if props.len() == 0 {
        Seq::empty()
    } else {
        prop_lines(cont, props.drop_last()) + cont + "    "@ + props.last().0 + " = "@ + props.last().1
            + "\n"@
    }
}

/// Parameter lines: `cont        key = value` each, keys and values decoded.
pub open spec fn param_lines(cont: Seq<char>, es: Seq<(Seq<u8>, Seq<u8>)>) -> Seq<char>
    decreases es.len(),
{
    if es.len() == 0 {
        Seq::empty()
    } else {
        param_lines(cont, es.drop_last()) + cont + "        "@ + win1252_decoded(es.last().0) + " = "@
            + win1252_decoded(es.last().1) + "\n"@
    }
}

/// The views of property pairs.
pub open spec fn props_view(props: Seq<(&str, String)>) -> Seq<(Seq<char>, Seq<char>)> {
    props.map_values(|p: (&str, String)| (p.0@, p.1@))
}

impl TreeBuilder {
    pub closed spec fn spec_output(&self) -> Seq<char> {
        self.output@
    }

    pub closed spec fn spec_stack(&self) -> Seq<bool> {
        self.indent_stack@
    }

    pub closed spec fn spec_options(&self) -> DumpOptions {
        self.options
    }

    /// A new tree builder with default options.
    pub fn new() -> (r: TreeBuilder)
        ensures
            r.spec_output().len() == 0,
            r.spec_stack().len() == 0,
            !r.spec_options().show_keys,
    {
        TreeBuilder { output: String::new(), indent_stack: Vec::new(), options: DumpOptions { show_keys: false } }
    }

    /// A new tree builder with options.
    pub fn with_options(options: DumpOptions) -> (r: TreeBuilder)
        ensures
            r.spec_output().len() == 0,
            r.spec_stack().len() == 0,
            r.spec_options() == options,
    {
        TreeBuilder { output: String::new(), indent_stack: Vec::new(), options }
    }

    /// The dump options.
    pub fn options(&self) -> (r: &DumpOptions)
        ensures
            *r == self.spec_options(),
    {
        &self.options
    }

    /// Whether all parameter keys are shown.
    pub fn show_keys(&self) -> (r: bool)
        ensures
            r == self.spec_options().show_keys,
    {
        self.options.show_keys
    }

    /// The prefix of continuation lines.
    fn continuation_prefix(&self) -> (r: String)
        ensures
            r@ == continuation(self.spec_stack()),
    {
        let mut s = String::new();
        let mut i: usize = 0;
        while i < self.indent_stack.len()
            invariant
                i <= self.indent_stack@.len(),
                s@ == continuation(self.indent_stack@.take(i as int)),
            decreases self.indent_stack@.len() - i,
        {
            assert(self.indent_stack@.take(i + 1).drop_last() =~= self.indent_stack@.take(i as int));
            if self.indent_stack[i] {
                s.append("│   ");
            } else {
                s.append("    ");
            }
            i = i + 1;
        }
        assert(self.indent_stack@.take(i as int) =~= self.indent_stack@);
        s
    }

    /// The prefix of node lines.
    fn prefix(&self) -> (r: String)
        ensures
            r@ == node_prefix(self.spec_stack()),
    {
        let n = self.indent_stack.len();
        if n == 0 {
            return String::new();
        }
        let mut s = String::new();
        let mut i: usize = 0;
        while i < n - 1
            invariant
                n == self.indent_stack@.len(),
                n > 0,
                i <= n - 1,
                s@ == continuation(self.indent_stack@.take(i as int)),
            decreases n - 1 - i,
        {
            assert(self.indent_stack@.take(i + 1).drop_last() =~= self.indent_stack@.take(i as int));
            if self.indent_stack[i] {
                s.append("│   ");
            } else {
                s.append("    ");
            }
            i = i + 1;
        }
        assert(self.indent_stack@.take(i as int) =~= self.indent_stack@.drop_last());
        if self.indent_stack[n - 1] {
            s.append("├── ");
        } else {
            s.append("└── ");
        }
        s
    }

    /// Appends `cont    name = value` lines for the properties.
    fn write_props(&mut self, cont: &str, props: &[(&str, String)])
        ensures
            final(self).spec_output() == old(self).spec_output() + prop_lines(cont@, props_view(props@)),
            final(self).spec_stack() == old(self).spec_stack(),
            final(self).spec_options() == old(self).spec_options(),
    {
        let mut i: usize = 0;
        while i < props.len()
            invariant
                i <= props@.len(),
                self.output@ == old(self).output@ + prop_lines(cont@, props_view(props@.take(i as int))),
                self.indent_stack == old(self).indent_stack,
                self.options == old(self).options,
            decreases props@.len() - i,
        {
            assert(props_view(props@.take(i + 1)).drop_last() =~= props_view(props@.take(i as int)));
            let (name, value) = &props[i];
            self.output.append(cont);
            self.output.append("    ");
            self.output.append(name);
            self.output.append(" = ");
            self.output.append(value.as_str());
            self.output.append("\n");
            i = i + 1;
        }
        assert(props@.take(i as int) =~= props@);
    }

    /// Add a node line with a title.
    pub fn begin_node(&mut self, title: &str)
        ensures
            final(self).spec_output() == old(self).spec_output() + node_prefix(old(self).spec_stack()) + title@
                + "\n"@,
            final(self).spec_stack() == old(self).spec_stack(),
            final(self).spec_options() == old(self).spec_options(),
    {
        let prefix = self.prefix();
        self.output.append(prefix.as_str());
        self.output.append(title);
        self.output.append("\n");
    }

    /// Add a leaf node with its properties.
    pub fn add_leaf(&mut self, title: &str, props: &[(&str, String)])
        ensures
            final(self).spec_output() == old(self).spec_output() + node_prefix(old(self).spec_stack()) + title@
                + "\n"@ + prop_lines(continuation(old(self).spec_stack()), props_view(props@)),
            final(self).spec_stack() == old(self).spec_stack(),
            final(self).spec_options() == old(self).spec_options(),
    {
        let prefix = self.prefix();
        self.output.append(prefix.as_str());
        self.output.append(title);
        self.output.append("\n");
        let cont = self.continuation_prefix();
        self.write_props(cont.as_str(), props);
    }

    /// Add a leaf node with its properties and, when all keys are shown, all
    /// parameters of a collection.
    pub fn add_leaf_with_params(&mut self, title: &str, props: &[(&str, String)], params: Option<&ParameterCollection>)
        ensures
            ({
                let cont = continuation(old(self).spec_stack());
                let head = old(self).spec_output() + node_prefix(old(self).spec_stack()) + title@ + "\n"@
                    + prop_lines(cont, props_view(props@));
                final(self).spec_output() == match params {
                    Some(p) => if old(self).spec_options().show_keys {
                        head + cont + "    [all keys]\n"@ + param_lines(cont, p@)
                    } else {
                        head
                    },
                    None => head,
                }
            }),
            final(self).spec_stack() == old(self).spec_stack(),
            final(self).spec_options() == old(self).spec_options(),
    {
        let prefix = self.prefix();
        self.output.append(prefix.as_str());
        self.output.append(title);
        self.output.append("\n");
        let cont = self.continuation_prefix();
        self.write_props(cont.as_str(), props);
        if self.options.show_keys {
            match params {
                Some(p) => {
                    self.output.append(cont.as_str());
                    self.output.append("    [all keys]\n");
                    let es = p.entries();
                    let ghost base = self.output@;
                    let mut i: usize = 0;
                    while i < es.len()
                        invariant
                            i <= es@.len(),
                            es@.map_values(|e: ParamEntry| e.spec_pair()) == p@,
                            self.output@ == base + param_lines(
                                cont@,
                                es@.take(i as int).map_values(|e: ParamEntry| e.spec_pair()),
                            ),
                            self.indent_stack@ == old(self).indent_stack@,
                            self.options == old(self).options,
                        decreases es@.len() - i,
                    {
                        assert(es@.take(i + 1).map_values(|e: ParamEntry| e.spec_pair()).drop_last()
                            =~= es@.take(i as int).map_values(|e: ParamEntry| e.spec_pair()));
                        let k = crate::encoding::decode_win1252(es[i].key());
                        let v = crate::encoding::decode_win1252(es[i].value());
                        self.output.append(cont.as_str());
                        self.output.append("        ");
                        self.output.append(k.as_str());
                        self.output.append(" = ");
                        self.output.append(v.as_str());
                        self.output.append("\n");
                        i = i + 1;
                    }
                    assert(es@.take(i as int) =~= es@);
                },
                None => {},
            }
        }
    }

    /// Enter a child group.
    pub fn push(&mut self, has_more_siblings: bool)
        ensures
            final(self).spec_stack() == old(self).spec_stack().push(has_more_siblings),
            final(self).spec_output() == old(self).spec_output(),
            final(self).spec_options() == old(self).spec_options(),
    {
        self.indent_stack.push(has_more_siblings);
    }

    /// Leave a child group.
    pub fn pop(&mut self)
        ensures
            final(self).spec_stack() == if old(self).spec_stack().len() > 0 {
                old(self).spec_stack().drop_last()
            } else {
                old(self).spec_stack()
            },
            final(self).spec_output() == old(self).spec_output(),
            final(self).spec_options() == old(self).spec_options(),
    {
        if self.indent_stack.len() > 0 {
            self.indent_stack.pop();
        }
    }

    /// Add a root line (no prefix).
    pub fn root(&mut self, title: &str)
        ensures
            final(self).spec_output() == old(self).spec_output() + title@ + "\n"@,
            final(self).spec_stack() == old(self).spec_stack(),
            final(self).spec_options() == old(self).spec_options(),
    {
        self.output.append(title);
        self.output.append("\n");
    }

    /// The built text.
    pub fn finish(self) -> (r: String)
        ensures
            r@ == self.spec_output(),
    {
        self.output
    }
}

/// Types that dump themselves as a tree.
pub trait DumpTree {
    /// Dump this item to the tree builder.
    fn dump(&self, tree: &mut TreeBuilder);

    /// Dump to a string with default options.
    fn dump_to_string(&self) -> String {
        let mut tree = TreeBuilder::new();
        self.dump(&mut tree);
        tree.finish()
    }

    /// Dump to a string with options.
    fn dump_to_string_with_options(&self, options: DumpOptions) -> String {
        let mut tree = TreeBuilder::with_options(options);
        self.dump(&mut tree);
        tree.finish()
    }
}

/// A boolean as `yes` or `no`.
pub fn fmt_bool(b: bool) -> (r: String)
    ensures
        r@ == if b {
            "yes"@
        } else {
            "no"@
        },
{
    if b {
        crate::error::text("yes")
    } else {
        crate::error::text("no")
    }
}

} // verus!
