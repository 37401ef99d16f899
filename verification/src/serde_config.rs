//! The shapes in which inputs and arguments travel between processes, and their meaning.

use vstd::prelude::*;

use crate::types::{AutoArg, AutoArgView, Input, InputView};

verus! {

/// An input under way: a flake or an expression has a value, a file a path.
#[derive(Debug)]
pub enum InputWire {
    Flake { value: String },
    Expr { value: String },
    File { path: String },
}

pub enum InputWireView {
    Flake { value: Seq<char> },
    Expr { value: Seq<char> },
    File { path: Seq<char> },
}

impl View for InputWire {
    type V = InputWireView;

    open spec fn view(&self) -> InputWireView {
        match self {
            InputWire::Flake { value } => InputWireView::Flake { value: value@ },
            InputWire::Expr { value } => InputWireView::Expr { value: value@ },
            InputWire::File { path } => InputWireView::File { path: path@ },
        }
    }
}

/// The shape of an input.
pub open spec fn input_wire(input: InputView) -> InputWireView {
    match input {
        InputView::Flake(value) => InputWireView::Flake { value },
        InputView::Expr(value) => InputWireView::Expr { value },
        InputView::File(path) => InputWireView::File { path },
    }
}

/// The input of a shape.
pub open spec fn wired_input(wire: InputWireView) -> InputView {
    match wire {
        InputWireView::Flake { value } => InputView::Flake(value),
        InputWireView::Expr { value } => InputView::Expr(value),
        InputWireView::File { path } => InputView::File(path),
    }
}

impl InputWire {
    /// The shape of an input.
    pub fn serialize(input: &Input) -> (wire: Self)
        ensures
            wire@ == input_wire(input@),
    {
        match input {
            Input::Flake(value) => InputWire::Flake { value: value.clone() },
            Input::Expr(value) => InputWire::Expr { value: value.clone() },
            Input::File(path) => InputWire::File { path: path.clone() },
        }
    }

    /// The input of a shape.
    pub fn deserialize(self) -> (input: Input)
        ensures
            input@ == wired_input(self@),
    {
        match self {
            InputWire::Flake { value } => Input::Flake(value),
            InputWire::Expr { value } => Input::Expr(value),
            InputWire::File { path } => Input::File(path),
        }
    }
}

/// Whether an argument is an expression or a string.
#[derive(Clone, Copy, PartialEq, Eq, Structural, Debug)]
pub enum AutoArgKind {
    Expr,
    Str,
}

/// A named argument under way.
#[derive(Debug)]
pub struct AutoArgWire {
    pub name: String,
    pub kind: AutoArgKind,
    pub value: String,
}

pub struct AutoArgWireView {
    pub name: Seq<char>,
    pub kind: AutoArgKind,
    pub value: Seq<char>,
}

impl View for AutoArgWire {
    type V = AutoArgWireView;

    open spec fn view(&self) -> AutoArgWireView {
        AutoArgWireView { name: self.name@, kind: self.kind, value: self.value@ }
    }
}

impl DeepView for AutoArgWire {
    type V = AutoArgWireView;

    open spec fn deep_view(&self) -> AutoArgWireView {
        self@
    }
}

/// The shape of a named argument.
pub open spec fn auto_arg_wire(arg: (Seq<char>, AutoArgView)) -> AutoArgWireView {
    match arg.1 {
        AutoArgView::Expr(value) => AutoArgWireView { name: arg.0, kind: AutoArgKind::Expr, value },
        AutoArgView::Str(value) => AutoArgWireView { name: arg.0, kind: AutoArgKind::Str, value },
    }
}

/// The named argument of a shape.
pub open spec fn wired_auto_arg(wire: AutoArgWireView) -> (Seq<char>, AutoArgView) {
    (
        wire.name,
        match wire.kind {
            AutoArgKind::Expr => AutoArgView::Expr(wire.value),
            AutoArgKind::Str => AutoArgView::Str(wire.value),
        },
    )
}

/// The shapes of named arguments.
pub open spec fn auto_args_wire(args: Seq<(Seq<char>, AutoArgView)>) -> Seq<AutoArgWireView> {
    args.map_values(|arg: (Seq<char>, AutoArgView)| auto_arg_wire(arg))
}

/// The named arguments of shapes.
pub open spec fn wired_auto_args(wires: Seq<AutoArgWireView>) -> Seq<(Seq<char>, AutoArgView)> {
    wires.map_values(|wire: AutoArgWireView| wired_auto_arg(wire))
}

impl AutoArgWire {
    /// The shapes of named arguments.
    pub fn serialize(args: &Vec<(String, AutoArg)>) -> (wires: Vec<Self>)
        ensures
            wires.deep_view() == auto_args_wire(args.deep_view()),
    {
        let ghost all = args.deep_view();
        let mut wires: Vec<AutoArgWire> = Vec::new();
        let mut i: usize = 0;
        while i < args.len()
            invariant
                all == args.deep_view(),
                i <= args@.len(),
                wires.deep_view() =~= auto_args_wire(all.take(i as int)),
            decreases args@.len() - i,
        {
            let ghost before = wires.deep_view();
            let name = args[i].0.clone();
            let wire = match &args[i].1 {
                AutoArg::Expr(value) => AutoArgWire {
                    name,
                    kind: AutoArgKind::Expr,
                    value: value.clone(),
                },
                AutoArg::Str(value) => AutoArgWire {
                    name,
                    kind: AutoArgKind::Str,
                    value: value.clone(),
                },
            };
            wires.push(wire);
            assert(all[i as int] == args@[i as int].deep_view());
            assert(wires.deep_view() =~= before.push(wire@));
            i += 1;
        }
        assert(all.take(all.len() as int) =~= all);
        wires
    }

    /// The named arguments of shapes.
    pub fn deserialize(wires: &Vec<Self>) -> (args: Vec<(String, AutoArg)>)
        ensures
            args.deep_view() == wired_auto_args(wires.deep_view()),
    {
        let ghost all = wires.deep_view();
        let mut args: Vec<(String, AutoArg)> = Vec::new();
        let mut i: usize = 0;
        while i < wires.len()
            invariant
                all == wires.deep_view(),
                i <= wires@.len(),
                args.deep_view() =~= wired_auto_args(all.take(i as int)),
            decreases wires@.len() - i,
        {
            let ghost before = args.deep_view();
            let value = wires[i].value.clone();
            let arg = match wires[i].kind {
                AutoArgKind::Expr => AutoArg::Expr(value),
                AutoArgKind::Str => AutoArg::Str(value),
            };
            let one = (wires[i].name.clone(), arg);
            args.push(one);
            assert(all[i as int] == wires@[i as int]@);
            assert(args.deep_view() =~= before.push(one.deep_view()));
            i += 1;
        }
        assert(all.take(all.len() as int) =~= all);
        args
    }
}

/// Inputs and arguments keep their meaning on the way.
pub proof fn law_wire_keeps_meaning(input: InputView, args: Seq<(Seq<char>, AutoArgView)>)
    ensures
        wired_input(input_wire(input)) == input,
        wired_auto_args(auto_args_wire(args)) == args,
{
    assert(wired_auto_args(auto_args_wire(args)) =~= args);
}

/// Every shape is the shape of what it means.
pub proof fn law_meaning_keeps_wire(wire: InputWireView, wires: Seq<AutoArgWireView>)
    ensures
        input_wire(wired_input(wire)) == wire,
        auto_args_wire(wired_auto_args(wires)) == wires,
{
    assert(auto_args_wire(wired_auto_args(wires)) =~= wires);
}

/// A flake travels as a flake, an expression as an expression and a file as a file; expressions and
/// strings among the arguments likewise, under their names and in order.
pub proof fn law_kinds_travel(text: Seq<char>, args: Seq<(Seq<char>, AutoArgView)>, i: int)
    ensures
        input_wire(InputView::Flake(text)) == (InputWireView::Flake { value: text }),
        input_wire(InputView::Expr(text)) == (InputWireView::Expr { value: text }),
        input_wire(InputView::File(text)) == (InputWireView::File { path: text }),
        auto_args_wire(args).len() == args.len(),
        0 <= i < args.len() ==> {
            &&& auto_args_wire(args)[i].name == args[i].0
            &&& args[i].1 matches AutoArgView::Expr(value) ==> auto_args_wire(args)[i].kind
                == AutoArgKind::Expr && auto_args_wire(args)[i].value == value
            &&& args[i].1 matches AutoArgView::Str(value) ==> auto_args_wire(args)[i].kind
                == AutoArgKind::Str && auto_args_wire(args)[i].value == value
        },
{
}

} // verus!
