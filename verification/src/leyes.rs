//! Propiedades del catálogo que relacionan varias operaciones o valen de todo árbol.
use vstd::prelude::*;
use crate::modelo::{
    Libro, Nodo, altura_real, alturas_correctas, contenido, en_orden, equilibrado, es_avl, ordenado,
    tamano,
};
use crate::insercion::{con_libro, lema_insertar, tras_insertar};
use crate::eliminacion::{lema_eliminar, tras_eliminar};
use crate::busqueda::{lema_por_camino_ordenado, por_camino};
use crate::estadisticas::libro_mayor;

verus! {

/// Cada ISBN del contenido de un árbol lleva a un libro con ese mismo ISBN.
pub proof fn ley_isbn_del_contenido(t: Option<Box<Nodo>>, k: u32)
    requires
        contenido(t).contains_key(k),
    ensures
        contenido(t)[k].isbn == k,
    decreases t,
{
    match t {
        None => {},
        Some(n) => {
            if k != n.libro.isbn {
                if contenido(n.derecho).contains_key(k) {
                    ley_isbn_del_contenido(n.derecho, k);
                } else {
                    ley_isbn_del_contenido(n.izquierdo, k);
                }
            }
        },
    }
}

/// Buscar un ISBN justo después de insertar en un AVL un libro con ese ISBN da el libro
/// insertado si el ISBN era nuevo, y el que ya estaba si no; buscar cualquier otro ISBN
/// da lo mismo que antes.
pub proof fn ley_buscar_tras_insertar(t: Option<Box<Nodo>>, libro: Libro, k: u32)
    requires
        es_avl(t),
        altura_real(t) < i32::MAX,
    ensures
        por_camino(Some(Box::new(tras_insertar(t, libro))), libro.isbn) == Some(
            if contenido(t).contains_key(libro.isbn) {
                contenido(t)[libro.isbn]
            } else {
                libro
            },
        ),
        k != libro.isbn ==> por_camino(Some(Box::new(tras_insertar(t, libro))), k) == por_camino(
            t,
            k,
        ),
{
    let r = Some(Box::new(tras_insertar(t, libro)));
    lema_insertar(t, libro);
    lema_por_camino_ordenado(r, libro.isbn);
    lema_por_camino_ordenado(r, k);
    lema_por_camino_ordenado(t, k);
}

/// Tras eliminar un ISBN de un árbol ordenado con alturas correctas, buscarlo no da nada;
/// buscar cualquier otro ISBN da lo mismo que antes.
pub proof fn ley_buscar_tras_eliminar(t: Option<Box<Nodo>>, isbn: u32, k: u32)
    requires
        ordenado(t),
        alturas_correctas(t),
    ensures
        por_camino(tras_eliminar(t, isbn), isbn) is None,
        k != isbn ==> por_camino(tras_eliminar(t, isbn), k) == por_camino(t, k),
{
    lema_eliminar(t, isbn);
    lema_por_camino_ordenado(tras_eliminar(t, isbn), isbn);
    lema_por_camino_ordenado(tras_eliminar(t, isbn), k);
    lema_por_camino_ordenado(t, k);
}

/// Eliminar de un AVL el ISBN de un libro recién insertado, que no estaba, deja el mismo
/// recorrido en orden (y el mismo contenido) que antes de la inserción.
pub proof fn ley_eliminar_deshace_insertar(t: Option<Box<Nodo>>, libro: Libro)
    requires
        es_avl(t),
        altura_real(t) < i32::MAX,
        !contenido(t).contains_key(libro.isbn),
    ensures
        en_orden(tras_eliminar(Some(Box::new(tras_insertar(t, libro))), libro.isbn)) == en_orden(t),
        contenido(tras_eliminar(Some(Box::new(tras_insertar(t, libro))), libro.isbn)) == contenido(
            t,
        ),
{
    let i = Some(Box::new(tras_insertar(t, libro)));
    lema_insertar(t, libro);
    lema_eliminar(i, libro.isbn);
    assert(con_libro(contenido(t), libro).remove(libro.isbn) =~= contenido(t));
}

/// En un árbol ordenado el contenido es finito y tiene tantos libros como nodos.
pub proof fn ley_tamano_es_numero_de_libros(t: Option<Box<Nodo>>)
    requires
        ordenado(t),
    ensures
        contenido(t).dom().finite(),
        contenido(t).len() == tamano(t),
    decreases t,
{
    match t {
        None => {},
        Some(n) => {
            ley_tamano_es_numero_de_libros(n.izquierdo);
            ley_tamano_es_numero_de_libros(n.derecho);
            let a = contenido(n.izquierdo).dom();
            let b = contenido(n.derecho).dom();
            assert(a.disjoint(b));
            vstd::set_lib::lemma_set_disjoint_lens(a, b);
            assert(!(a + b).contains(n.libro.isbn));
            assert(contenido(t).dom() =~= (a + b).insert(n.libro.isbn));
        },
    }
}

/// El libro de ISBN más alto de un árbol está en su contenido y ningún ISBN del árbol lo
/// supera; si el árbol está ordenado, es el libro que el contenido asocia a ese ISBN.
pub proof fn ley_libro_mayor(n: Nodo)
    ensures
        contenido(Some(Box::new(n))).contains_key(libro_mayor(n).isbn),
        forall|k: u32| #[trigger]
            contenido(Some(Box::new(n))).contains_key(k) ==> k <= libro_mayor(n).isbn,
        ordenado(Some(Box::new(n))) ==> contenido(Some(Box::new(n)))[libro_mayor(n).isbn]
            == libro_mayor(n),
    decreases n,
{
    let t = Some(Box::new(n));
    let m = libro_mayor(n);
    assert(n.libro.isbn <= m.isbn);
    match n.izquierdo {
        Some(l) => {
            ley_libro_mayor(*l);
            assert(libro_mayor(*l).isbn <= m.isbn);
        },
        None => {},
    }
    match n.derecho {
        Some(d) => {
            ley_libro_mayor(*d);
            assert(libro_mayor(*d).isbn <= m.isbn);
        },
        None => {},
    }
    assert forall|k: u32| #[trigger] contenido(t).contains_key(k) implies k <= m.isbn by {
        if contenido(n.izquierdo).contains_key(k) {
            assert(n.izquierdo is Some);
        } else if contenido(n.derecho).contains_key(k) {
            assert(n.derecho is Some);
        }
    }
}

/// `i` es la primera posición de `s` con el ISBN más alto de `s`.
pub open spec fn primer_maximo(s: Seq<Libro>, i: int) -> bool {
    &&& 0 <= i < s.len()
    &&& forall|j: int| 0 <= j < s.len() ==> #[trigger] s[j].isbn <= s[i].isbn
    &&& forall|j: int| 0 <= j < i ==> #[trigger] s[j].isbn < s[i].isbn
}

/// El libro de ISBN más alto de un árbol no vacío es el primero que, en el recorrido en
/// orden, alcanza el ISBN más alto; se devuelve su posición.
pub proof fn ley_libro_mayor_en_orden(n: Nodo) -> (i: int)
    ensures
        primer_maximo(en_orden(Some(Box::new(n))), i),
        en_orden(Some(Box::new(n)))[i] == libro_mayor(n),
    decreases n,
{
    let s = en_orden(Some(Box::new(n)));
    let a = en_orden(n.izquierdo);
    let b = en_orden(n.derecho);
    let x = n.libro;
    assert(s == a.push(x) + b);
    assert(forall|j: int| 0 <= j < a.len() ==> s[j] == #[trigger] a[j]);
    assert(s[a.len() as int] == x);
    assert(forall|j: int| 0 <= j < b.len() ==> s[a.len() + 1 + j] == #[trigger] b[j]);
    // primera posición del mayor hasta la raíz incluida
    let ih: int = match n.izquierdo {
        Some(l) => {
            let il = ley_libro_mayor_en_orden(*l);
            if x.isbn > a[il].isbn {
                a.len() as int
            } else {
                il
            }
        },
        None => 0,
    };
    assert(0 <= ih <= a.len());
    assert(forall|j: int| 0 <= j <= a.len() ==> #[trigger] s[j].isbn <= s[ih].isbn);
    assert(forall|j: int| 0 <= j < ih ==> #[trigger] s[j].isbn < s[ih].isbn);
    let i: int = match n.derecho {
        Some(d) => {
            let ir = ley_libro_mayor_en_orden(*d);
            if b[ir].isbn > s[ih].isbn {
                assert forall|j: int| 0 <= j < s.len() implies #[trigger] s[j].isbn <= b[ir].isbn by {
                    if j > a.len() {
                        assert(s[j] == b[j - a.len() - 1]);
                    }
                }
                assert forall|j: int| 0 <= j < a.len() + 1 + ir implies #[trigger] s[j].isbn < b[ir].isbn by {
                    if j > a.len() {
                        assert(s[j] == b[j - a.len() - 1]);
                    }
                }
                a.len() + 1 + ir
            } else {
                assert forall|j: int| 0 <= j < s.len() implies #[trigger] s[j].isbn <= s[ih].isbn by {
                    if j > a.len() {
                        assert(s[j] == b[j - a.len() - 1]);
                    }
                }
                ih
            }
        },
        None => {
            assert(s.len() == a.len() + 1);
            ih
        },
    };
    i
}

/// El libro del nodo más a la derecha de un árbol no vacío.
pub open spec fn extremo_derecho(n: Nodo) -> Libro
    decreases n,
{
    match n.derecho {
        Some(d) => extremo_derecho(*d),
        None => n.libro,
    }
}

/// En un árbol ordenado el libro de ISBN más alto es el del nodo más a la derecha.
pub proof fn ley_mayor_es_el_extremo_derecho(n: Nodo)
    requires
        ordenado(Some(Box::new(n))),
    ensures
        libro_mayor(n) == extremo_derecho(n),
    decreases n,
{
    match n.izquierdo {
        Some(l) => {
            ley_libro_mayor(*l);
            assert(contenido(n.izquierdo).contains_key(libro_mayor(*l).isbn));
        },
        None => {},
    }
    match n.derecho {
        Some(d) => {
            ley_mayor_es_el_extremo_derecho(*d);
            ley_libro_mayor(*d);
            assert(contenido(n.derecho).contains_key(libro_mayor(*d).isbn));
        },
        None => {},
    }
}

/// Dos elevado a `n`.
pub open spec fn potencia2(n: nat) -> nat
    decreases n,
{
    if n == 0 {
        1
    } else {
        2 * potencia2((n - 1) as nat)
    }
}

/// Un árbol equilibrado de altura h tiene al menos 2^(h/2) - 1 nodos: su altura crece
/// como mucho con el doble del logaritmo del número de libros.
pub proof fn ley_altura_logaritmica(t: Option<Box<Nodo>>)
    requires
        equilibrado(t),
    ensures
        potencia2(altura_real(t) / 2) <= tamano(t) + 1,
    decreases t,
{
    match t {
        None => {},
        Some(n) => {
            ley_altura_logaritmica(n.izquierdo);
            ley_altura_logaritmica(n.derecho);
            let h = altura_real(t);
            if h >= 2 {
                let k = ((h - 2) / 2) as nat;
                assert(h / 2 == k + 1);
                assert(altura_real(n.izquierdo) >= h - 2);
                assert(altura_real(n.derecho) >= h - 2);
                lema_potencia2_monotona(k, altura_real(n.izquierdo) / 2);
                lema_potencia2_monotona(k, altura_real(n.derecho) / 2);
                assert(potencia2(k + 1) == 2 * potencia2(k));
            }
        },
    }
}

/// `potencia2` es creciente.
pub proof fn lema_potencia2_monotona(a: nat, b: nat)
    requires
        a <= b,
    ensures
        potencia2(a) <= potencia2(b),
    decreases b,
{
    if a < b {
        lema_potencia2_monotona(a, (b - 1) as nat);
    }
}

} // verus!
