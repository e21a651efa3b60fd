//! Runs the compute-then-commit circuit through halo2's mock prover and holds
//! it to the library's verified reference: the system must be satisfiable
//! exactly when the public input equals the library's hash of `(a + b) * c`.

use halo2_gadgets::poseidon::{
    primitives::{Absorbing, ConstantLength, Domain, P128Pow5T3},
    PaddedWord, Pow5Chip, Pow5Config, Sponge,
};
use halo2_proofs::{
    circuit::{AssignedCell, Layouter, SimpleFloorPlanner, Value},
    dev::MockProver,
    plonk::{Advice, Circuit, Column, ConstraintSystem, Error, Instance, Selector},
    poly::Rotation,
};
use pasta_curves::group::ff::PrimeField;
use pasta_curves::Fp;
use rand_core::{OsRng, RngCore};

use halo2_playground::circuit::compute_public_output;
use halo2_playground::field::Fe;

const WIDTH: usize = 3;
const RATE: usize = 2;
const L: usize = 1;

#[derive(Clone, Debug)]
struct FieldConfig {
    advice: [Column<Advice>; WIDTH],
    instance: Column<Instance>,
    s_add: Selector,
    s_mul: Selector,
    sponge_config: Pow5Config<Fp, WIDTH, RATE>,
}

#[derive(Default)]
struct MyCircuit {
    a: Value<Fp>,
    b: Value<Fp>,
    c: Value<Fp>,
}

fn load_private(
    config: &FieldConfig,
    layouter: &mut impl Layouter<Fp>,
    value: Value<Fp>,
) -> Result<AssignedCell<Fp, Fp>, Error> {
    layouter.assign_region(
        || "load private",
        |mut region| region.assign_advice(|| "private input", config.advice[0], 0, || value),
    )
}

fn add_gate(
    config: &FieldConfig,
    layouter: &mut impl Layouter<Fp>,
    a: &AssignedCell<Fp, Fp>,
    b: &AssignedCell<Fp, Fp>,
) -> Result<AssignedCell<Fp, Fp>, Error> {
    layouter.assign_region(
        || "add",
        |mut region| {
            config.s_add.enable(&mut region, 0)?;
            a.copy_advice(|| "lhs", &mut region, config.advice[0], 0)?;
            b.copy_advice(|| "rhs", &mut region, config.advice[1], 0)?;
            let value = a.value().copied() + b.value();
            region.assign_advice(|| "lhs + rhs", config.advice[0], 1, || value)
        },
    )
}

fn mul_gate(
    config: &FieldConfig,
    layouter: &mut impl Layouter<Fp>,
    a: &AssignedCell<Fp, Fp>,
    b: &AssignedCell<Fp, Fp>,
) -> Result<AssignedCell<Fp, Fp>, Error> {
    layouter.assign_region(
        || "mul",
        |mut region| {
            config.s_mul.enable(&mut region, 0)?;
            a.copy_advice(|| "lhs", &mut region, config.advice[0], 0)?;
            b.copy_advice(|| "rhs", &mut region, config.advice[1], 0)?;
            let value = a.value().copied() * b.value();
            region.assign_advice(|| "lhs * rhs", config.advice[0], 1, || value)
        },
    )
}

impl Circuit<Fp> for MyCircuit {
    type Config = FieldConfig;
    type FloorPlanner = SimpleFloorPlanner;

    fn without_witnesses(&self) -> Self {
        Self::default()
    }

    fn configure(meta: &mut ConstraintSystem<Fp>) -> Self::Config {
        let advice = [
            meta.advice_column(),
            meta.advice_column(),
            meta.advice_column(),
        ];
        for column in advice {
            meta.enable_equality(column);
        }
        let instance = meta.instance_column();
        meta.enable_equality(instance);

        let s_add = meta.selector();
        meta.create_gate("add", |meta| {
            let lhs = meta.query_advice(advice[0], Rotation::cur());
            let rhs = meta.query_advice(advice[1], Rotation::cur());
            let out = meta.query_advice(advice[0], Rotation::next());
            let s_add = meta.query_selector(s_add);
            vec![s_add * (lhs + rhs - out)]
        });

        let s_mul = meta.selector();
        meta.create_gate("mul", |meta| {
            let lhs = meta.query_advice(advice[0], Rotation::cur());
            let rhs = meta.query_advice(advice[1], Rotation::cur());
            let out = meta.query_advice(advice[0], Rotation::next());
            let s_mul = meta.query_selector(s_mul);
            vec![s_mul * (lhs * rhs - out)]
        });

        let partial_sbox = meta.advice_column();
        let rc_a = [
            meta.fixed_column(),
            meta.fixed_column(),
            meta.fixed_column(),
        ];
        let rc_b = [
            meta.fixed_column(),
            meta.fixed_column(),
            meta.fixed_column(),
        ];
        meta.enable_constant(rc_b[0]);
        let sponge_config =
            Pow5Chip::configure::<P128Pow5T3>(meta, advice, partial_sbox, rc_a, rc_b);

        FieldConfig {
            advice,
            instance,
            s_add,
            s_mul,
            sponge_config,
        }
    }

    fn synthesize(
        &self,
        config: Self::Config,
        mut layouter: impl Layouter<Fp>,
    ) -> Result<(), Error> {
        let poseidon_chip = Pow5Chip::construct(config.sponge_config.clone());
        let mut sponge: Sponge<
            Fp,
            Pow5Chip<Fp, WIDTH, RATE>,
            P128Pow5T3,
            Absorbing<PaddedWord<Fp>, RATE>,
            ConstantLength<L>,
            WIDTH,
            RATE,
        > = Sponge::new(poseidon_chip, layouter.namespace(|| "new sponge"))?;

        let a = load_private(&config, &mut layouter, self.a)?;
        let b = load_private(&config, &mut layouter, self.b)?;
        let c = load_private(&config, &mut layouter, self.c)?;

        let ab = add_gate(&config, &mut layouter, &a, &b)?;
        let d = mul_gate(&config, &mut layouter, &ab, &c)?;

        let message = [d];
        for (i, value) in message
            .into_iter()
            .map(PaddedWord::Message)
            .chain(<ConstantLength<L> as Domain<Fp, RATE>>::padding(L).map(PaddedWord::Padding))
            .enumerate()
        {
            sponge.absorb(layouter.namespace(|| format!("absorb_{i}")), value)?;
        }

        let mut sponge = sponge.finish_absorbing(layouter.namespace(|| "finish absorbing"))?;
        let r = sponge.squeeze(layouter.namespace(|| "squeeze"))?;

        layouter.constrain_instance(r.cell(), config.instance, 0)
    }
}

fn fp_of(fe: &Fe) -> Fp {
    let bytes: [u8; 32] = fe.to_bytes().try_into().unwrap();
    Fp::from_repr(bytes).unwrap()
}

#[test]
fn test_circuit() {
    let k = 8;
    let mut rng = OsRng;
    let a = rng.next_u64();
    let b = rng.next_u64();
    let c = rng.next_u64();

    // The library's verified reference evaluation of the same pipeline.
    let y = compute_public_output(&Fe::from_u64(a), &Fe::from_u64(b), &Fe::from_u64(c));
    let y_fp = fp_of(&y);

    let circuit = MyCircuit {
        a: Value::known(Fp::from(a)),
        b: Value::known(Fp::from(b)),
        c: Value::known(Fp::from(c)),
    };

    // With the owed public input the circuit verifies.
    let prover = MockProver::run(k, &circuit, vec![vec![y_fp]]).unwrap();
    assert_eq!(prover.verify(), Ok(()));

    // With any other public input it must not.
    let prover = MockProver::run(k, &circuit, vec![vec![y_fp + Fp::from(1u64)]]).unwrap();
    assert!(prover.verify().is_err());
}

#[test]
fn test_poseidon() {
    let k = 8;
    let a = 3u64;
    let b = 4u64;
    let c = 5u64;

    // Out-of-circuit reference: the library's sponge on d = (3 + 4) * 5 = 35.
    let y = compute_public_output(&Fe::from_u64(a), &Fe::from_u64(b), &Fe::from_u64(c));
    let output = fp_of(&y);

    // In-circuit computation must commit to the same value.
    let circuit = MyCircuit {
        a: Value::known(Fp::from(a)),
        b: Value::known(Fp::from(b)),
        c: Value::known(Fp::from(c)),
    };
    let prover = MockProver::run(k, &circuit, vec![vec![output]]).unwrap();
    assert_eq!(prover.verify(), Ok(()));
}
