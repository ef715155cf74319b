//! Altura guardada y factor de balance de un nodo.
use vstd::prelude::*;
use crate::modelo::{Nodo, altura_guardada, mayor};

verus! {

/// La altura guardada en la raíz de `nodo`, o 0 si el árbol está vacío.
pub fn obtener_altura(nodo: &Option<Box<Nodo>>) -> (h: i32)
    ensures
        h == altura_guardada(*nodo),
{
    match nodo {
        None => 0,
        Some(n) => n.altura,
    }
}

/// Recalcula la altura de `nodo` a partir de las alturas guardadas en sus hijos:
/// uno más la mayor de las dos. No toca nada más.
pub fn actualizar_altura(nodo: &mut Nodo)
    requires
        altura_guardada(old(nodo).izquierdo) < i32::MAX,
        altura_guardada(old(nodo).derecho) < i32::MAX,
    ensures
        final(nodo).altura == 1 + mayor(
            altura_guardada(old(nodo).izquierdo),
            altura_guardada(old(nodo).derecho),
        ),
        final(nodo).libro == old(nodo).libro,
        final(nodo).izquierdo == old(nodo).izquierdo,
        final(nodo).derecho == old(nodo).derecho,
{
    let hi = obtener_altura(&nodo.izquierdo);
    let hd = obtener_altura(&nodo.derecho);
    let m = if hi >= hd { hi } else { hd };
    nodo.altura = 1 + m;
}

/// Factor de balance de `nodo`: altura guardada del hijo izquierdo menos la del derecho.
pub fn obtener_balance(nodo: &Nodo) -> (b: i32)
    requires
        i32::MIN <= altura_guardada(nodo.izquierdo) - altura_guardada(nodo.derecho) <= i32::MAX,
    ensures
        b == altura_guardada(nodo.izquierdo) - altura_guardada(nodo.derecho),
{
    obtener_altura(&nodo.izquierdo) - obtener_altura(&nodo.derecho)
}

} // verus!
