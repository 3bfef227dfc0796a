use quantum_error_analyzer::physics::pauli::{PauliString, Phase, SinglePauli};

#[test]
fn test_pauli_string_creation() {
    let p = PauliString::new(3);
    assert_eq!(p.num_qubits(), 3);
    assert_eq!(p.get_pauli(0), SinglePauli::I);
    assert_eq!(p.get_pauli(1), SinglePauli::I);
    assert_eq!(p.get_pauli(2), SinglePauli::I);
}

#[test]
fn test_pauli_string_from_str() {
    let p = PauliString::from_str("X I Z", 3).unwrap();
    assert_eq!(p.get_pauli(0), SinglePauli::X);
    assert_eq!(p.get_pauli(1), SinglePauli::I);
    assert_eq!(p.get_pauli(2), SinglePauli::Z);
}

#[test]
fn test_pauli_multiplication_basic() {
    // X * I = X
    let x = PauliString::from_str("X", 1).unwrap();
    let i = PauliString::from_str("I", 1).unwrap();
    let result = x.multiply(&i);
    assert_eq!(result.get_pauli(0), SinglePauli::X);
    assert_eq!(result.phase(), Phase::PlusOne);
    
    // I * X = X
    let result = i.multiply(&x);
    assert_eq!(result.get_pauli(0), SinglePauli::X);
}

#[test]
fn test_pauli_multiplication_x_z() {
    // X * Z = iY
    let x = PauliString::from_str("X", 1).unwrap();
    let z = PauliString::from_str("Z", 1).unwrap();
    let result = x.multiply(&z);
    assert_eq!(result.get_pauli(0), SinglePauli::Y);
    assert_eq!(result.phase(), Phase::PlusI);
    
    // Z * X = -iY
    let result = z.multiply(&x);
    assert_eq!(result.get_pauli(0), SinglePauli::Y);
    assert_eq!(result.phase(), Phase::MinusI);
}

#[test]
fn test_pauli_multiplication_self() {
    // X * X = I
    let x = PauliString::from_str("X", 1).unwrap();
    let result = x.multiply(&x);
    assert_eq!(result.get_pauli(0), SinglePauli::I);
    
    // Z * Z = I
    let z = PauliString::from_str("Z", 1).unwrap();
    let result = z.multiply(&z);
    assert_eq!(result.get_pauli(0), SinglePauli::I);
    
    // Y * Y = I
    let y = PauliString::from_str("Y", 1).unwrap();
    let result = y.multiply(&y);
    assert_eq!(result.get_pauli(0), SinglePauli::I);
}

#[test]
fn test_commutation() {
    // X and Z anti-commute
    let x = PauliString::from_str("X", 1).unwrap();
    let z = PauliString::from_str("Z", 1).unwrap();
    assert!(!x.commutes_with(&z));
    
    // X and X commute
    assert!(x.commutes_with(&x));
    
    // I commutes with everything
    let i = PauliString::from_str("I", 1).unwrap();
    assert!(i.commutes_with(&x));
    assert!(i.commutes_with(&z));
}
