//! The whole generator: from the text of a configuration to the texts of the library.

use vstd::prelude::*;
use crate::algebra::{spec_basis, strictly_ordered, BasisElement, GeometricAlgebra};
use crate::ast::{AstNode, AstNodeView};
use crate::class::MultiVectorClassRegistry;
use crate::config::{
    parse_configuration, spec_configuration, Configuration, ConfigurationError, ConfigurationView,
};
use crate::driver::{
    all_class_nodes, borrowed_views, compound_operations, generate, nodes_of,
    spec_class_operations, spec_definitions,
};
use crate::emit::{concatenated, lemma_joined_push, Emitter, Malformed};
use crate::glsl::{glsl_code, glsl_code_emittable};
use crate::involution::spec_involutions;
use crate::product::spec_products;
use crate::report::spec_table;
use crate::rust::{rust_code, rust_code_emittable};

verus! {

/// Everything that is generated for an algebra and its classes, in the order of its
/// emission: the definitions, then class by class the operations of the class, then
/// the operations derived for pairs of classes.
pub open spec fn spec_nodes(squares: Seq<isize>, registry: MultiVectorClassRegistry) -> Seq<
    AstNodeView,
> {
    let count = registry.classes@.len();
    let classes = Seq::new(
        count,
        |a: int|
            spec_class_operations(
                registry,
                spec_involutions(squares.len()),
                spec_products(squares),
                a,
            ),
    );
    spec_definitions(registry) + all_class_nodes(classes, count as int) + nodes_of(
        compound_operations(classes, registry.classes@, count as int),
    )
}

/// Whether every node can be written in both dialects.
pub open spec fn writable(nodes: Seq<AstNodeView>) -> bool {
    forall|i: int|
        0 <= i < nodes.len() ==> rust_code_emittable(#[trigger] nodes[i], 0) && glsl_code_emittable(
            nodes[i],
            0,
        )
}

/// The texts of the nodes in the systems dialect.
pub open spec fn rust_texts(nodes: Seq<AstNodeView>) -> Seq<Seq<char>> {
    Seq::new(nodes.len(), |i: int| rust_code(nodes[i], 0))
}

/// The texts of the nodes in the shader dialect.
pub open spec fn glsl_texts(nodes: Seq<AstNodeView>) -> Seq<Seq<char>> {
    Seq::new(nodes.len(), |i: int| glsl_code(nodes[i], 0))
}

/// The generated library: the multiplication table of the algebra, and the code in
/// both dialects.
pub struct Library {
    pub table: String,
    pub rust: String,
    pub glsl: String,
}

impl Library {
    /// The library is the one of the configuration.
    pub open spec fn of(&self, configuration: &Configuration) -> bool {
        let squares = configuration.generator_squares@;
        let nodes = spec_nodes(squares, configuration.registry);
        &&& writable(nodes)
        &&& self.rust@ == concatenated(rust_texts(nodes))
        &&& self.glsl@ == concatenated(glsl_texts(nodes))
        &&& exists|basis: Seq<BasisElement>|
            {
                &&& strictly_ordered(basis)
                &&& basis.to_multiset() == spec_basis(squares.len()).to_multiset()
                &&& self.table@ == #[trigger] spec_table(basis, squares)
            }
    }
}

/// Why no library was generated.
#[derive(Clone, Copy, PartialEq, Eq, Debug)]
pub enum GenerationError {
    /// The text is no configuration.
    Configuration(ConfigurationError),
    /// Something that was generated cannot be written in one of the dialects.
    Malformed,
}

/// Writes all nodes in both dialects.
fn write_nodes<'b, 'a>(order: &Vec<&'b AstNode<'a>>) -> (result: Result<Emitter, Malformed>)
    ensures
        match result {
            Ok(emitter) => {
                &&& writable(borrowed_views(order@))
                &&& emitter.rust_collector@ == concatenated(rust_texts(borrowed_views(order@)))
                &&& emitter.glsl_collector@ == concatenated(glsl_texts(borrowed_views(order@)))
            },
            Err(_) => !writable(borrowed_views(order@)),
        },
{
    let ghost nodes = borrowed_views(order@);
    let ghost in_rust = rust_texts(nodes);
    let ghost in_glsl = glsl_texts(nodes);
    let mut emitter = Emitter::new();
    let mut i: usize = 0;
    assert(emitter.rust_collector@ =~= concatenated(in_rust.take(0)));
    assert(emitter.glsl_collector@ =~= concatenated(in_glsl.take(0)));
    while i < order.len()
        invariant
            i <= order.len(),
            nodes == borrowed_views(order@),
            in_rust == rust_texts(nodes),
            in_glsl == glsl_texts(nodes),
            forall|k: int|
                0 <= k < i ==> rust_code_emittable(#[trigger] nodes[k], 0) && glsl_code_emittable(
                    nodes[k],
                    0,
                ),
            emitter.rust_collector@ == concatenated(in_rust.take(i as int)),
            emitter.glsl_collector@ == concatenated(in_glsl.take(i as int)),
        decreases order.len() - i,
    {
        assert(nodes[i as int] == order@[i as int].view());
        match emitter.emit(order[i]) {
            Ok(_) => {},
            Err(error) => {
                assert(!(rust_code_emittable(nodes[i as int], 0) && glsl_code_emittable(
                    nodes[i as int],
                    0,
                )));
                return Err(error);
            },
        }
        proof {
            assert(in_rust.take(i as int + 1) =~= in_rust.take(i as int).push(in_rust[i as int]));
            assert(in_glsl.take(i as int + 1) =~= in_glsl.take(i as int).push(in_glsl[i as int]));
            lemma_joined_push(in_rust.take(i as int), Seq::empty(), in_rust[i as int]);
            lemma_joined_push(in_glsl.take(i as int), Seq::empty(), in_glsl[i as int]);
            assert(emitter.rust_collector@ =~= concatenated(in_rust.take(i as int + 1)));
            assert(emitter.glsl_collector@ =~= concatenated(in_glsl.take(i as int + 1)));
        }
        i += 1;
    }
    assert(in_rust.take(order.len() as int) =~= in_rust);
    assert(in_glsl.take(order.len() as int) =~= in_glsl);
    Ok(emitter)
}

/// Generates the library of a configuration. Fails where something that was generated
/// cannot be written in one of the dialects.
pub fn write_library(configuration: &Configuration) -> (result: Result<Library, Malformed>)
    requires
        configuration.well_formed(),
    ensures
        match result {
            Ok(library) => library.of(configuration),
            Err(_) => !writable(
                spec_nodes(configuration.generator_squares@, configuration.registry),
            ),
        },
{
    let algebra =
        GeometricAlgebra { generator_squares: configuration.generator_squares.as_slice() };
    let table = algebra.multiplication_table();
    let generated = generate(&algebra, &configuration.registry);
    let order = generated.emission_order();
    assert(borrowed_views(order@) == spec_nodes(
        configuration.generator_squares@,
        configuration.registry,
    ));
    match write_nodes(&order) {
        Ok(emitter) => Ok(
            Library { table, rust: emitter.rust_collector, glsl: emitter.glsl_collector },
        ),
        Err(error) => Err(error),
    }
}

/// Reads a configuration and generates its library.
pub fn generate_library(text: &str) -> (result: Result<(Configuration, Library), GenerationError>)
    ensures
        match result {
            Ok((configuration, library)) => {
                &&& configuration.well_formed()
                &&& spec_configuration(text@) == Ok::<ConfigurationView, ConfigurationError>(
                    configuration@,
                )
                &&& library.of(&configuration)
            },
            Err(GenerationError::Configuration(error)) => spec_configuration(text@) == Err::<
                ConfigurationView,
                ConfigurationError,
            >(error),
            Err(GenerationError::Malformed) => exists|configuration: Configuration|
                {
                    &&& configuration.well_formed()
                    &&& spec_configuration(text@) == Ok::<ConfigurationView, ConfigurationError>(
                        configuration@,
                    )
                    &&& !#[trigger] writable(
                        spec_nodes(configuration.generator_squares@, configuration.registry),
                    )
                },
        },
{
    let configuration = match parse_configuration(text) {
        Ok(configuration) => configuration,
        Err(error) => {
            return Err(GenerationError::Configuration(error));
        },
    };
    match write_library(&configuration) {
        Ok(library) => Ok((configuration, library)),
        Err(_) => Err(GenerationError::Malformed),
    }
}

} // verus!
