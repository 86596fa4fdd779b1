use gba_recompiler::address_space::{ImageKind, ImageMapping};
use gba_recompiler::cfg::AnalysisError;
use gba_recompiler::decoder::Mode;
use gba_recompiler::exception_graph::{analyze_exception_graph, ExceptionGraphEdge, ExceptionGraphEdgeKind, ExceptionVectorKind};

fn arm_image(words: &[(u32, u32)]) -> Vec<u8> {
    let mut image = vec![0u8; 0x20];
    for &(address, raw) in words {
        image[address as usize..address as usize + 4].copy_from_slice(&raw.to_le_bytes());
    }
    image
}

fn nop_image() -> Vec<u8> {
    arm_image(&[
        (0x00, 0xe1a0_0000),
        (0x04, 0xe1a0_0000),
        (0x08, 0xe1a0_0000),
        (0x0c, 0xe1a0_0000),
        (0x10, 0xe1a0_0000),
        (0x14, 0xe1a0_0000),
        (0x18, 0xe1a0_0000),
        (0x1c, 0xe1a0_0000),
    ])
}

#[test]
fn analyzes_all_arm_exception_vectors_as_independent_roots() {
    let image = nop_image();
    let mapping = ImageMapping::new(ImageKind::Bios, 0, image.len() as u32, 0, Mode::Arm);
    let graph = analyze_exception_graph(&image, mapping).unwrap();

    assert_eq!(graph.nodes.len(), 6);
    assert_eq!(graph.vector_keys().len(), ExceptionVectorKind::all().len());
    assert!(graph.node(ExceptionVectorKind::Irq).is_some());
    assert!(graph.node(ExceptionVectorKind::Fiq).is_some());
}

#[test]
fn records_exception_return_sites_as_graph_edges() {
    let image = arm_image(&[(0x18, 0xe25e_f004)]);
    let mapping = ImageMapping::new(ImageKind::Bios, 0, image.len() as u32, 0, Mode::Arm);
    let graph = analyze_exception_graph(&image, mapping).unwrap();

    let irq = graph.node(ExceptionVectorKind::Irq).unwrap();
    assert_eq!(irq.exception_return_sites, vec![0x18]);
    assert!(graph.edges.iter().any(|edge| {
        edge.from == ExceptionVectorKind::Irq && edge.kind == ExceptionGraphEdgeKind::ExceptionReturn && edge.address == 0x18
    }));
}

#[test]
fn nodes_follow_architectural_order_and_vectors() {
    let image = nop_image();
    let mapping = ImageMapping::new(ImageKind::Bios, 0, image.len() as u32, 0, Mode::Arm);
    let graph = analyze_exception_graph(&image, mapping).unwrap();

    let vectors: Vec<u32> = graph.nodes.iter().map(|node| node.vector).collect();
    assert_eq!(vectors, vec![0x04, 0x08, 0x0c, 0x10, 0x18, 0x1c]);
    for node in &graph.nodes {
        assert_eq!(node.program.cfg.blocks[node.program.entry.0].key.address, node.vector);
        assert_eq!(node.kind.vector(), node.vector);
    }
    assert!(graph.edges.is_empty());
    assert!(graph.shared_handler_edges().is_empty());
}

#[test]
fn analysis_runs_as_bios_entered_at_the_last_vector() {
    let image = nop_image();
    let mapping = ImageMapping::new(ImageKind::CartridgeRom, 0, image.len() as u32, 0, Mode::Thumb);
    let graph = analyze_exception_graph(&image, mapping).unwrap();

    assert_eq!(graph.image, ImageMapping::new(ImageKind::Bios, 0, 0x20, 0x1c, Mode::Arm));
}

#[test]
fn a_handler_reached_from_an_earlier_vector_is_shared() {
    // The undefined-instruction vector branches straight to the IRQ vector.
    let mut words = vec![(0x04, 0xea00_0003)];
    for address in [0x08u32, 0x0c, 0x10, 0x14, 0x18, 0x1c] {
        words.push((address, 0xe1a0_0000));
    }
    let image = arm_image(&words);
    let mapping = ImageMapping::new(ImageKind::Bios, 0, image.len() as u32, 0, Mode::Arm);
    let graph = analyze_exception_graph(&image, mapping).unwrap();

    let shared = graph.shared_handler_edges();
    assert_eq!(
        shared,
        vec![ExceptionGraphEdge {
            from: ExceptionVectorKind::Irq,
            to: Some(ExceptionVectorKind::Undefined),
            kind: ExceptionGraphEdgeKind::SharedHandler,
            address: 0x18,
        }]
    );
    assert_eq!(graph.edges, shared);
}

#[test]
fn edges_are_ordered_by_source_then_kind() {
    // Undefined branches to the IRQ vector, whose handler returns; the
    // vectors between fall through into the same return.
    let image = arm_image(&[(0x04, 0xea00_0003), (0x18, 0xe25e_f004)]);
    let mapping = ImageMapping::new(ImageKind::Bios, 0, image.len() as u32, 0, Mode::Arm);
    let graph = analyze_exception_graph(&image, mapping).unwrap();

    let summary: Vec<(ExceptionVectorKind, ExceptionGraphEdgeKind, u32)> =
        graph.edges.iter().map(|edge| (edge.from, edge.kind, edge.address)).collect();
    assert_eq!(
        summary,
        vec![
            (ExceptionVectorKind::Undefined, ExceptionGraphEdgeKind::ExceptionReturn, 0x18),
            (ExceptionVectorKind::SoftwareInterrupt, ExceptionGraphEdgeKind::ExceptionReturn, 0x18),
            (ExceptionVectorKind::PrefetchAbort, ExceptionGraphEdgeKind::ExceptionReturn, 0x18),
            (ExceptionVectorKind::DataAbort, ExceptionGraphEdgeKind::ExceptionReturn, 0x18),
            (ExceptionVectorKind::Irq, ExceptionGraphEdgeKind::SharedHandler, 0x18),
            (ExceptionVectorKind::Irq, ExceptionGraphEdgeKind::ExceptionReturn, 0x18),
        ]
    );
}

#[test]
fn a_mapping_of_the_wrong_size_is_refused_at_the_first_vector() {
    let image = nop_image();
    let mapping = ImageMapping::new(ImageKind::Bios, 0, 0x40, 0, Mode::Arm);
    assert_eq!(analyze_exception_graph(&image, mapping), Err(AnalysisError::InvalidEntry(0x04)));
}

#[test]
fn a_vector_outside_a_short_image_is_refused() {
    let image = vec![0u8; 0x10];
    let mapping = ImageMapping::new(ImageKind::Bios, 0, 0x10, 0, Mode::Arm);
    assert_eq!(analyze_exception_graph(&image, mapping), Err(AnalysisError::InvalidEntry(0x10)));
}
