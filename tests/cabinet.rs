use guitar_fx::cabinet::{CabinetCatalog, CabinetSelection};
use guitar_fx::convolution::{check_impulse_response, partition_impulse_response};
use guitar_fx::{BlockFramer, CabinetType, ConvolutionError};

struct Rack {
    catalog: CabinetCatalog<f32>,
    selection: CabinetSelection,
    framer: BlockFramer<f32>,
    partitions: Vec<Vec<f32>>,
}

impl Rack {
    fn new(block_size: usize) -> Self {
        let catalog = CabinetCatalog::new(
            vec![1.0, 0.85, 0.72],
            vec![0.9, 0.78],
            vec![0.85, 0.76],
            vec![0.8, 0.71],
        );
        let mut rack = Rack {
            catalog,
            selection: CabinetSelection::new(block_size),
            framer: BlockFramer::new(block_size, 0.0),
            partitions: Vec::new(),
        };
        rack.load_cabinet(CabinetType::Marshall4x12V30).unwrap();
        rack
    }

    fn load_cabinet(&mut self, cabinet: CabinetType) -> Result<(), ConvolutionError> {
        let outcome = match self.catalog.impulse_response(cabinet) {
            None => {
                self.framer.reset();
                Ok(())
            }
            Some(ir) => check_impulse_response(ir).map(|()| {
                self.partitions = partition_impulse_response(ir, self.framer.block_size(), 0.0);
                self.framer.reset();
            }),
        };
        self.selection.commit(cabinet, outcome)
    }
}

#[test]
fn test_cabinet_creation() {
    let rack = Rack::new(128);
    assert_eq!(rack.selection.get_current_cabinet(), CabinetType::Marshall4x12V30);
    assert_eq!(rack.selection.get_latency(), 128);
}

#[test]
fn test_cabinet_switching() {
    let mut rack = Rack::new(128);
    assert!(rack.load_cabinet(CabinetType::FenderTwin2x12).is_ok());
    assert_eq!(rack.selection.get_current_cabinet(), CabinetType::FenderTwin2x12);
    assert!(rack.load_cabinet(CabinetType::Direct).is_ok());
    assert_eq!(rack.selection.get_current_cabinet(), CabinetType::Direct);
    assert_eq!(rack.selection.get_latency(), 0);
}

#[test]
fn test_direct_mode_processing() {
    let mut rack = Rack::new(128);
    rack.load_cabinet(CabinetType::Direct).unwrap();
    let input = 0.5f32;
    assert!(rack.selection.is_bypassed());
    let output = rack.selection.pass_through(input).unwrap();
    assert_eq!(output, input);
}

#[test]
fn latency_is_block_size_for_every_convolved_cabinet() {
    let mut rack = Rack::new(64);
    for c in [
        CabinetType::Marshall4x12V30,
        CabinetType::FenderTwin2x12,
        CabinetType::VoxAC30Blue,
        CabinetType::Mesa4x12Recto,
    ] {
        assert!(rack.load_cabinet(c).is_ok());
        assert_eq!(rack.selection.get_current_cabinet(), c);
        assert_eq!(rack.selection.get_latency(), 64);
        assert!(!rack.selection.is_bypassed());
        assert!(!rack.framer.needs_block());
        assert!(!rack.partitions.is_empty());
    }
}

#[test]
fn failed_load_keeps_previous_cabinet() {
    let mut selection = CabinetSelection::new(32);
    assert_eq!(
        selection.commit(CabinetType::VoxAC30Blue, Err(ConvolutionError::EmptyImpulseResponse)),
        Err(ConvolutionError::EmptyImpulseResponse)
    );
    assert_eq!(selection.get_current_cabinet(), CabinetType::Marshall4x12V30);
    assert_eq!(selection.commit(CabinetType::VoxAC30Blue, Ok(())), Ok(()));
    assert_eq!(selection.get_current_cabinet(), CabinetType::VoxAC30Blue);
}

#[test]
fn convolved_cabinets_do_not_pass_through() {
    let mut rack = Rack::new(8);
    assert_eq!(rack.selection.pass_through(0.25f32), None);
    rack.load_cabinet(CabinetType::Direct).unwrap();
    for x in [0.0f32, -1.0, 0.25, 3.5, f32::MAX] {
        assert_eq!(rack.selection.pass_through(x), Some(x));
    }
}

#[test]
fn reload_only_on_change() {
    let selection = CabinetSelection::new(32);
    assert!(!selection.needs_reload(CabinetType::Marshall4x12V30));
    assert!(selection.needs_reload(CabinetType::Direct));
}

#[test]
fn empty_catalog_entry_is_rejected() {
    let mut rack = Rack::new(16);
    let old = rack.catalog.replace(CabinetType::Mesa4x12Recto, Vec::new());
    assert_eq!(old, vec![0.8, 0.71]);
    assert_eq!(
        rack.load_cabinet(CabinetType::Mesa4x12Recto),
        Err(ConvolutionError::EmptyImpulseResponse)
    );
    assert_eq!(rack.selection.get_current_cabinet(), CabinetType::Marshall4x12V30);
    assert_eq!(rack.catalog.replace(CabinetType::Direct, vec![1.0]), vec![1.0]);
    assert!(rack.catalog.impulse_response(CabinetType::Direct).is_none());
}

#[test]
fn cabinet_ordinals_round_trip() {
    for i in 0..5 {
        assert_eq!(CabinetType::from_index(i).to_index(), i);
    }
    assert_eq!(CabinetType::from_index(4), CabinetType::Direct);
    assert_eq!(CabinetType::from_index(5), CabinetType::Marshall4x12V30);
    assert_eq!(CabinetType::from_index(usize::MAX), CabinetType::Marshall4x12V30);
    assert_eq!(CabinetType::VoxAC30Blue.to_index(), 2);
}

#[test]
fn cabinet_names_and_ids() {
    assert_eq!(
        CabinetType::variants(),
        vec!["Marshall 4x12 V30", "Fender Twin 2x12", "Vox AC30 Blue", "Mesa 4x12 Recto", "Direct"]
    );
    assert_eq!(
        CabinetType::ids(),
        vec!["marshall_4x12_v30", "fender_twin_2x12", "vox_ac30_blue", "mesa_4x12_recto", "direct"]
    );
    assert_eq!(CabinetType::Mesa4x12Recto.ir_file_name(), Some("mesa_4x12_recto.wav"));
    assert_eq!(CabinetType::Direct.ir_file_name(), None);
    assert!(CabinetType::FenderTwin2x12.is_convolved());
    assert!(!CabinetType::Direct.is_convolved());
}

#[test]
fn loading_a_cabinet_resets_the_stream() {
    let mut rack = Rack::new(4);
    for x in [0.3f32, 0.2, 0.1, 0.4, 0.5, 0.6] {
        if rack.framer.needs_block() {
            let block = rack.framer.pending_block().clone();
            rack.framer.exchange_block(block);
        }
        rack.framer.push_sample(x);
    }
    assert!(rack.load_cabinet(CabinetType::VoxAC30Blue).is_ok());
    assert_eq!(rack.selection.get_current_cabinet(), CabinetType::VoxAC30Blue);
    for _ in 0..4 {
        assert!(!rack.framer.needs_block());
        assert_eq!(rack.framer.push_sample(1.0), 0.0);
    }
    assert!(rack.framer.needs_block());
}
